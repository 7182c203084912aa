//! The arithmetic of the box layout.
//!
//! A box container places its children one after another along its main
//! axis. It first measures every child at its natural size, then decides how
//! much room each child is offered, and at last arranges what the children
//! returned. Calling the children is the container's business; everything
//! that is decided from their answers is computed here, on plain values.

use vstd::prelude::*;
use crate::geometry::clamp_unit;
use crate::geometry::div_floor;
use crate::geometry::floor_div;
use crate::geometry::half;
use crate::geometry::half_floor;
use crate::geometry::saturate;
use crate::geometry::Pos2;
use crate::geometry::Rect;
use crate::geometry::Vec2;
use crate::layout::layout_views;
use crate::layout::Align;
use crate::layout::Axis;
use crate::layout::AxisDirections;
use crate::layout::Layout;
use crate::layout::LayoutHints;
use crate::layout::LayoutModel;
use crate::layout::SizeHint;
use crate::widget_id::WidgetId;

verus! {

/// The settings of a box container that its layout depends on.
#[derive(Copy, Clone, Debug, PartialEq, Eq, Structural)]
pub struct BoxConfig {
    pub axis: Axis,
    /// The gap between two neighbouring children. There is none before the
    /// first child and none after the last.
    pub separation: i32,
    /// The container's own hints.
    pub layout_hints: LayoutHints,
    pub main_align: Align,
    pub cross_align: Align,
}

/// What the measurement pass learns of one child: its hints, and the size it
/// takes when it is told to shrink.
#[derive(Copy, Clone, Debug, PartialEq, Eq, Structural)]
pub struct ChildMeasure {
    pub hints: LayoutHints,
    pub shrink_size: Vec2,
}

/// Whether a child with hints `hints` takes a share of the free space along
/// the main axis.
pub open spec fn fills_main(axis: Axis, hints: LayoutHints, force_shrink: bool) -> bool {
    hints.size_hints.main_dir_spec(axis).or_force_spec(force_shrink) == SizeHint::Fill
}

/// Whether a child with hints `hints` spans the container across the main
/// axis.
pub open spec fn fills_cross(axis: Axis, hints: LayoutHints, force_shrink: bool) -> bool {
    hints.size_hints.cross_dir_spec(axis).or_force_spec(force_shrink) == SizeHint::Fill
}

/// The main-axis space that the shrinking children among the first `k` take.
pub open spec fn shrink_space_upto(
    axis: Axis,
    force_shrink: bool,
    children: Seq<ChildMeasure>,
    k: int,
) -> int
    decreases k,
{
    if k <= 0 {
        0
    } else {
        let c = children[k - 1];
        shrink_space_upto(axis, force_shrink, children, k - 1) + if fills_main(
            axis,
            c.hints,
            force_shrink,
        ) {
            0
        } else {
            c.shrink_size.main_dir_spec(axis) as int
        }
    }
}

/// The sum of the weights of the filling children among the first `k`.
pub open spec fn filled_weight_upto(
    axis: Axis,
    force_shrink: bool,
    children: Seq<ChildMeasure>,
    k: int,
) -> int
    decreases k,
{
    if k <= 0 {
        0
    } else {
        let c = children[k - 1];
        filled_weight_upto(axis, force_shrink, children, k - 1) + if fills_main(
            axis,
            c.hints,
            force_shrink,
        ) {
            c.hints.weight as int
        } else {
            0
        }
    }
}

/// The number of filling children among the first `k`.
pub open spec fn fill_count_upto(
    axis: Axis,
    force_shrink: bool,
    children: Seq<ChildMeasure>,
    k: int,
) -> int
    decreases k,
{
    if k <= 0 {
        0
    } else {
        fill_count_upto(axis, force_shrink, children, k - 1) + if fills_main(
            axis,
            children[k - 1].hints,
            force_shrink,
        ) {
            1int
        } else {
            0int
        }
    }
}

/// The largest cross-axis size among the first `k` measured children, and
/// zero if none of them is wider than nothing.
pub open spec fn max_cross_upto(axis: Axis, children: Seq<ChildMeasure>, k: int) -> int
    decreases k,
{
    if k <= 0 {
        0
    } else {
        let rest = max_cross_upto(axis, children, k - 1);
        let own = children[k - 1].shrink_size.cross_dir_spec(axis) as int;
        if own > rest {
            own
        } else {
            rest
        }
    }
}

/// The share of `wiggle_room` that a filling child of weight `weight` is
/// offered when the filling children weigh `total_weight` together: in
/// proportion to its weight, rounded down. Where the weights sum to zero no
/// proportion exists, and the share is zero.
pub open spec fn fill_share(wiggle_room: int, weight: int, total_weight: int) -> int {
    if total_weight <= 0 {
        0
    } else {
        floor_div(wiggle_room * weight, total_weight)
    }
}

/// What a box container has decided once its children are measured.
#[derive(Copy, Clone, Debug, PartialEq, Eq, Structural)]
pub struct BoxPlan {
    pub config: BoxConfig,
    pub available: Vec2,
    pub force_shrink: bool,
    /// The container's extent across the main axis.
    pub cross_space: i32,
    /// The main-axis space that is left for the filling children.
    pub wiggle_room: i32,
    pub total_filled_weight: u128,
    pub fill_child_count: usize,
}

impl BoxPlan {
    /// The plan for a container with settings `config` that is offered
    /// `available` and whose children measured as `children`.
    ///
    /// Across the main axis the container takes all that is offered if it
    /// fills, and else as much as its widest child. Along the main axis,
    /// what the shrinking children and the gaps between all children leave
    /// of the offered space is the wiggle room, which may be negative.
    pub open spec fn measure_spec(
        config: BoxConfig,
        available: Vec2,
        force_shrink: bool,
        children: Seq<ChildMeasure>,
    ) -> BoxPlan {
        let n = children.len() as int;
        let axis = config.axis;
        BoxPlan {
            config,
            available,
            force_shrink,
            cross_space: if fills_cross(axis, config.layout_hints, force_shrink) {
                available.cross_dir_spec(axis)
            } else {
                max_cross_upto(axis, children, n) as i32
            },
            wiggle_room: clamp_unit(
                available.main_dir_spec(axis) - (shrink_space_upto(axis, force_shrink, children, n)
                    + config.separation * (n - 1)),
            ) as i32,
            total_filled_weight: filled_weight_upto(axis, force_shrink, children, n) as u128,
            fill_child_count: fill_count_upto(axis, force_shrink, children, n) as usize,
        }
    }

    /// The size offered to a child with hints `hints` that starts at
    /// `main_offset` along the main axis: a filling child gets its share of
    /// the wiggle room, a shrinking child all that is left after the
    /// children before it.
    pub open spec fn child_available_spec(self, hints: LayoutHints, main_offset: int) -> Vec2 {
        let axis = self.config.axis;
        let main = if fills_main(axis, hints, self.force_shrink) {
            clamp_unit(
                fill_share(
                    self.wiggle_room as int,
                    hints.weight as int,
                    self.total_filled_weight as int,
                ),
            )
        } else {
            clamp_unit(self.available.main_dir_spec(axis) - main_offset)
        };
        axis.new_vec2_spec(main as i32, self.cross_space)
    }

    /// How far every child is moved along the main axis so that content of
    /// length `content` sits where `main_align` asks. Where a child fills,
    /// the content takes all the space and nothing moves.
    pub open spec fn main_align_offset(self, content: int) -> int {
        let leftover = self.available.main_dir_spec(self.config.axis) - content;
        if self.fill_child_count != 0 {
            0
        } else {
            match self.config.main_align {
                Align::Start => 0,
                Align::End => leftover,
                Align::Center => half(leftover),
            }
        }
    }

    /// How far a child of cross-axis size `cross_extent` is moved across the
    /// main axis. A child that fills across already spans the container.
    pub open spec fn cross_align_offset(self, hints: LayoutHints, cross_extent: int) -> int {
        let leftover = self.cross_space - cross_extent;
        if fills_cross(self.config.axis, hints, self.force_shrink) {
            0
        } else {
            match self.config.cross_align {
                Align::Start => 0,
                Align::End => leftover,
                Align::Center => half(leftover),
            }
        }
    }

    /// Child `i` as the container places it: at the origin, then moved along
    /// the main axis behind the children before it and by the main
    /// alignment, and across by the cross alignment.
    pub open spec fn placed_child(
        self,
        children: Seq<ChildMeasure>,
        raw: Seq<LayoutModel>,
        i: int,
    ) -> LayoutModel {
        let axis = self.config.axis;
        let content = main_offset_upto(axis, self.config.separation as int, raw, raw.len() as int);
        let main = main_offset_upto(axis, self.config.separation as int, raw, i) + self.main_align_offset(
            content,
        );
        let cross = self.cross_align_offset(children[i].hints, cross_extent(axis, raw[i]));
        raw[i].clear_translation().translated(
            axis.new_vec2_spec(clamp_unit(main) as i32, clamp_unit(cross) as i32),
        )
    }

    /// The container's layout node, given what its children returned in the
    /// real pass. Its main-axis size is the distance from the start of the
    /// first child to the end of the last, alignment not counted.
    pub open spec fn arrange_spec(
        self,
        widget_id: WidgetId,
        children: Seq<ChildMeasure>,
        raw: Seq<LayoutModel>,
    ) -> LayoutModel {
        let axis = self.config.axis;
        let n = raw.len() as int;
        LayoutModel::with_children(
            widget_id,
            axis.new_vec2_spec(
                clamp_unit(content_extent(axis, self.config.separation as int, raw)) as i32,
                self.cross_space,
            ),
            Seq::new(raw.len(), |i: int| self.placed_child(children, raw, i)),
        )
    }
}

/// The size of a layout node along the main axis.
pub open spec fn main_extent(axis: Axis, node: LayoutModel) -> int {
    node.bounds.size_spec().main_dir_spec(axis) as int
}

/// The size of a layout node across the main axis.
pub open spec fn cross_extent(axis: Axis, node: LayoutModel) -> int {
    node.bounds.size_spec().cross_dir_spec(axis) as int
}

/// Where child `k` starts along the main axis, before alignment: behind the
/// children before it, each followed by one gap.
pub open spec fn main_offset_upto(axis: Axis, separation: int, raw: Seq<LayoutModel>, k: int) -> int
    decreases k,
{
    if k <= 0 {
        0
    } else {
        main_offset_upto(axis, separation, raw, k - 1) + main_extent(axis, raw[k - 1]) + separation
    }
}

/// The distance from the start of the first child to the end of the last:
/// the children's main-axis sizes and the gaps between them. Zero where
/// there is no child.
pub open spec fn content_extent(axis: Axis, separation: int, raw: Seq<LayoutModel>) -> int {
    if raw.len() == 0 {
        0
    } else {
        main_offset_upto(axis, separation, raw, raw.len() as int) - separation
    }
}

/// The offered share of `wiggle_room`, computed.
pub fn compute_fill_share(wiggle_room: i32, weight: u32, total_weight: u128) -> (share: i32)
    ensures
        share == clamp_unit(fill_share(wiggle_room as int, weight as int, total_weight as int)),
{
    assert(-0x8000_0000 * 0x1_0000_0000 <= wiggle_room * weight <= 0x8000_0000 * 0x1_0000_0000)
        by (nonlinear_arith)
        requires
            -0x8000_0000 <= wiggle_room <= 0x8000_0000,
            0 <= weight <= 0x1_0000_0000,
    ;
    let product: i128 = wiggle_room as i128 * weight as i128;
    if total_weight == 0 {
        0
    } else if total_weight > 0x7fff_ffff_ffff_ffff_ffff_ffff_ffff_ffff {
        // The weights outweigh any product: the quotient is 0 or -1.
        proof {
            let p = product as int;
            let t = total_weight as int;
            if p >= 0 {
                vstd::arithmetic::div_mod::lemma_fundamental_div_mod_converse(p, t, 0, p);
            } else {
                vstd::arithmetic::div_mod::lemma_fundamental_div_mod_converse(p, t, -1, p + t);
            }
        }
        if product >= 0 {
            0
        } else {
            -1
        }
    } else {
        saturate(div_floor(product, total_weight as i128))
    }
}

/// Bounds on the sums over the first `k` children, which keep the running
/// totals within the machine's integers.
pub proof fn lemma_measure_bounds(
    axis: Axis,
    force_shrink: bool,
    children: Seq<ChildMeasure>,
    k: int,
)
    requires
        0 <= k <= children.len(),
    ensures
        -0x8000_0000 * k <= shrink_space_upto(axis, force_shrink, children, k) <= 0x8000_0000 * k,
        0 <= filled_weight_upto(axis, force_shrink, children, k) <= 0x1_0000_0000 * k,
        0 <= fill_count_upto(axis, force_shrink, children, k) <= k,
        0 <= max_cross_upto(axis, children, k) <= i32::MAX,
    decreases k,
{
    if k > 0 {
        lemma_measure_bounds(axis, force_shrink, children, k - 1);
    }
}

impl BoxPlan {
    /// Decides cross extent, wiggle room and weights from the measured
    /// children.
    pub fn measure(
        config: BoxConfig,
        available: Vec2,
        force_shrink: bool,
        children: &Vec<ChildMeasure>,
    ) -> (plan: BoxPlan)
        ensures
            plan == BoxPlan::measure_spec(config, available, force_shrink, children@),
    {
        let axis = config.axis;
        let n = children.len();
        let mut shrink_space: i128 = 0;
        let mut filled_weight: u128 = 0;
        let mut fill_count: usize = 0;
        let mut max_cross: i32 = 0;
        let mut k: usize = 0;
        while k < n
            invariant
                k <= n,
                n == children.len(),
                shrink_space == shrink_space_upto(axis, force_shrink, children@, k as int),
                filled_weight == filled_weight_upto(axis, force_shrink, children@, k as int),
                fill_count == fill_count_upto(axis, force_shrink, children@, k as int),
                max_cross == max_cross_upto(axis, children@, k as int),
            decreases n - k,
        {
            proof {
                lemma_measure_bounds(axis, force_shrink, children@, k as int);
                lemma_measure_bounds(axis, force_shrink, children@, k + 1);
            }
            let c = children[k];
            match c.hints.size_hints.main_dir(axis).or_force(force_shrink) {
                SizeHint::Shrink => {
                    shrink_space = shrink_space + c.shrink_size.main_dir(axis) as i128;
                },
                SizeHint::Fill => {
                    fill_count = fill_count + 1;
                    filled_weight = filled_weight + c.hints.weight as u128;
                },
            }
            let own = c.shrink_size.cross_dir(axis);
            if own > max_cross {
                max_cross = own;
            }
            k += 1;
        }
        proof {
            lemma_measure_bounds(axis, force_shrink, children@, n as int);
        }
        let cross_space = match config.layout_hints.size_hints.cross_dir(axis).or_force(
            force_shrink,
        ) {
            SizeHint::Shrink => max_cross,
            SizeHint::Fill => available.cross_dir(axis),
        };
        let gaps: i128 = n as i128 - 1;
        assert(-0x8000_0000 * 0x1_0000_0000_0000_0000 <= config.separation * gaps <= 0x8000_0000
            * 0x1_0000_0000_0000_0000) by (nonlinear_arith)
            requires
                -0x8000_0000 <= config.separation <= 0x8000_0000,
                -1 <= gaps <= 0x1_0000_0000_0000_0000,
        ;
        assert(-0x8000_0000 * 0x1_0000_0000_0000_0000 <= 0x8000_0000 * n <= 0x8000_0000
            * 0x1_0000_0000_0000_0000) by (nonlinear_arith)
            requires
                0 <= n <= 0x1_0000_0000_0000_0000,
        ;
        let total_separation: i128 = config.separation as i128 * gaps;
        let wiggle_room = saturate(
            available.main_dir(axis) as i128 - (shrink_space + total_separation),
        );
        BoxPlan {
            config,
            available,
            force_shrink,
            cross_space,
            wiggle_room,
            total_filled_weight: filled_weight,
            fill_child_count: fill_count,
        }
    }

    /// The size to offer to a child with hints `hints` that starts at
    /// `main_offset` along the main axis.
    pub fn child_available(&self, hints: LayoutHints, main_offset: i128) -> (offered: Vec2)
        ensures
            offered == self.child_available_spec(hints, main_offset as int),
    {
        let axis = self.config.axis;
        let main = match hints.size_hints.main_dir(axis).or_force(self.force_shrink) {
            SizeHint::Shrink => {
                if main_offset > 0x1_0000_0000 {
                    i32::MIN
                } else if main_offset < -0x1_0000_0000 {
                    i32::MAX
                } else {
                    saturate(self.available.main_dir(axis) as i128 - main_offset)
                }
            },
            SizeHint::Fill => compute_fill_share(
                self.wiggle_room,
                hints.weight,
                self.total_filled_weight,
            ),
        };
        axis.new_vec2(main, self.cross_space)
    }
}

/// Bounds on where child `k` starts, which keep the running offset within
/// the machine's integers.
pub proof fn lemma_offset_bounds(axis: Axis, separation: int, raw: Seq<LayoutModel>, k: int)
    requires
        0 <= k <= raw.len(),
        i32::MIN <= separation <= i32::MAX,
    ensures
        -0x1_0000_0000 * k <= main_offset_upto(axis, separation, raw, k) <= 0x1_0000_0000 * k,
    decreases k,
{
    if k > 0 {
        lemma_offset_bounds(axis, separation, raw, k - 1);
    }
}

impl BoxPlan {
    fn compute_main_align_offset(&self, content: i128) -> (shift: i128)
        requires
            -0x1_0000_0000 * 0x1_0000_0000_0000_0000 <= content <= 0x1_0000_0000
                * 0x1_0000_0000_0000_0000,
        ensures
            shift == self.main_align_offset(content as int),
    {
        let leftover: i128 = self.available.main_dir(self.config.axis) as i128 - content;
        if self.fill_child_count != 0 {
            0
        } else {
            match self.config.main_align {
                Align::Start => 0,
                Align::End => leftover,
                Align::Center => half_floor(leftover),
            }
        }
    }

    fn compute_cross_align_offset(&self, hints: LayoutHints, cross_extent: i32) -> (shift: i128)
        ensures
            shift == self.cross_align_offset(hints, cross_extent as int),
    {
        let leftover: i128 = self.cross_space as i128 - cross_extent as i128;
        match hints.size_hints.cross_dir(self.config.axis).or_force(self.force_shrink) {
            SizeHint::Fill => 0,
            SizeHint::Shrink => match self.config.cross_align {
                Align::Start => 0,
                Align::End => leftover,
                Align::Center => half_floor(leftover),
            },
        }
    }

    /// Builds the container's layout node from what its children returned in
    /// the real pass, one node for each measured child and in the same order.
    pub fn arrange(&self, widget_id: WidgetId, children: &Vec<ChildMeasure>, raw: Vec<Layout>) -> (node:
        Layout)
        requires
            children.len() == raw.len(),
        ensures
            node@ == self.arrange_spec(widget_id, children@, layout_views(raw@)),
    {
        let axis = self.config.axis;
        let separation = self.config.separation;
        let n = raw.len();
        let ghost orig = layout_views(raw@);
        let mut raw = raw;

        let mut content: i128 = 0;
        let mut k: usize = 0;
        while k < n
            invariant
                k <= n,
                n == raw.len(),
                orig == layout_views(raw@),
                content == main_offset_upto(axis, separation as int, orig, k as int),
            decreases n - k,
        {
            proof {
                lemma_offset_bounds(axis, separation as int, orig, k as int);
                lemma_offset_bounds(axis, separation as int, orig, k + 1);
                raw[k as int].lemma_view();
            }
            let size = raw[k].bounds.size();
            content = content + size.main_dir(axis) as i128 + separation as i128;
            k += 1;
        }
        proof {
            lemma_offset_bounds(axis, separation as int, orig, n as int);
            assert(0x1_0000_0000 * n <= 0x1_0000_0000 * 0x1_0000_0000_0000_0000) by (nonlinear_arith)
                requires
                    n <= 0x1_0000_0000_0000_0000,
            ;
        }
        let extent: i128 = if n == 0 {
            0
        } else {
            content - separation as i128
        };
        let shift = self.compute_main_align_offset(content);

        let mut offset: i128 = 0;
        let mut i: usize = 0;
        while i < n
            invariant
                i <= n,
                n == raw.len(),
                n == orig.len(),
                n == children.len(),
                axis == self.config.axis,
                separation == self.config.separation,
                offset == main_offset_upto(axis, separation as int, orig, i as int),
                content == main_offset_upto(axis, separation as int, orig, n as int),
                shift == self.main_align_offset(content as int),
                -0x1_0000_0000 * 0x1_0000_0000_0000_0000 <= content <= 0x1_0000_0000
                    * 0x1_0000_0000_0000_0000,
                forall|j: int| i <= j < n ==> (#[trigger] raw[j])@ == orig[j],
                forall|j: int|
                    0 <= j < i ==> (#[trigger] raw[j])@ == self.placed_child(children@, orig, j),
            decreases n - i,
        {
            proof {
                lemma_offset_bounds(axis, separation as int, orig, i as int);
                lemma_offset_bounds(axis, separation as int, orig, i + 1);
                assert(0x1_0000_0000 * (i + 1) <= 0x1_0000_0000 * 0x1_0000_0000_0000_0000)
                    by (nonlinear_arith)
                    requires
                        i + 1 <= 0x1_0000_0000_0000_0000,
                ;
                raw[i as int].lemma_view();
            }
            let ghost before = raw[i as int];
            let ghost prev = raw@;
            let size = raw[i].bounds.size();
            let main = saturate(offset + shift);
            let cross = saturate(self.compute_cross_align_offset(children[i].hints, size.cross_dir(axis)));
            let placed = Rect::from_min_size(Pos2::zero(), size).translate(axis.new_vec2(main, cross));
            raw[i].bounds = placed;
            proof {
                raw[i as int].lemma_view();
                assert(raw[i as int]@ == self.placed_child(children@, orig, i as int));
                assert(forall|j: int| 0 <= j < n && j != i ==> raw[j] == prev[j]);
            }
            offset = offset + size.main_dir(axis) as i128 + separation as i128;
            i += 1;
        }
        let size = axis.new_vec2(saturate(extent), self.cross_space);
        proof {
            assert(layout_views(raw@) =~= Seq::new(
                orig.len(),
                |i: int| self.placed_child(children@, orig, i),
            ));
        }
        Layout::with_children(widget_id, size, raw)
    }
}

/// The main-axis sizes of the first `k` children, added up.
pub open spec fn main_extent_upto(axis: Axis, raw: Seq<LayoutModel>, k: int) -> int
    decreases k,
{
    if k <= 0 {
        0
    } else {
        main_extent_upto(axis, raw, k - 1) + main_extent(axis, raw[k - 1])
    }
}

/// What the filling children among the first `k` are offered, added up.
pub open spec fn share_upto(plan: BoxPlan, children: Seq<ChildMeasure>, k: int) -> int
    decreases k,
{
    if k <= 0 {
        0
    } else {
        share_upto(plan, children, k - 1) + if fills_main(
            plan.config.axis,
            children[k - 1].hints,
            plan.force_shrink,
        ) {
            clamp_unit(
                fill_share(
                    plan.wiggle_room as int,
                    children[k - 1].hints.weight as int,
                    plan.total_filled_weight as int,
                ),
            )
        } else {
            0
        }
    }
}

/// Child `k` starts behind the sizes of the children before it and one gap
/// for each of them.
pub proof fn lemma_offset_is_extents_and_gaps(
    axis: Axis,
    separation: int,
    raw: Seq<LayoutModel>,
    k: int,
)
    requires
        0 <= k <= raw.len(),
    ensures
        main_offset_upto(axis, separation, raw, k) == main_extent_upto(axis, raw, k) + separation
            * k,
    decreases k,
{
    if k > 0 {
        lemma_offset_is_extents_and_gaps(axis, separation, raw, k - 1);
        assert(separation * (k - 1) + separation == separation * k) by (nonlinear_arith);
    } else {
        assert(separation * k == 0) by (nonlinear_arith)
            requires
                k == 0,
        ;
    }
}

/// The length of a box container is the sum of its children's lengths and
/// of the gaps between them, whatever room it was offered and however it
/// aligns its children, as long as that sum is a coordinate.
pub proof fn lemma_container_extent(
    plan: BoxPlan,
    widget_id: WidgetId,
    children: Seq<ChildMeasure>,
    raw: Seq<LayoutModel>,
)
    requires
        raw.len() >= 1,
        i32::MIN <= main_extent_upto(plan.config.axis, raw, raw.len() as int)
            + plan.config.separation * (raw.len() - 1) <= i32::MAX,
    ensures
        main_extent(plan.config.axis, plan.arrange_spec(widget_id, children, raw))
            == main_extent_upto(plan.config.axis, raw, raw.len() as int) + plan.config.separation
            * (raw.len() - 1),
{
    let axis = plan.config.axis;
    let sep = plan.config.separation as int;
    let n = raw.len() as int;
    lemma_offset_is_extents_and_gaps(axis, sep, raw, n);
    assert(sep * n - sep == sep * (n - 1)) by (nonlinear_arith);
}

/// A filling child weighs no more than all the filling children together.
proof fn lemma_weight_within_total(
    axis: Axis,
    force_shrink: bool,
    children: Seq<ChildMeasure>,
    i: int,
    k: int,
)
    requires
        0 <= i < k <= children.len(),
        fills_main(axis, children[i].hints, force_shrink),
    ensures
        children[i].hints.weight <= filled_weight_upto(axis, force_shrink, children, k),
    decreases k,
{
    lemma_measure_bounds(axis, force_shrink, children, k - 1);
    if i < k - 1 {
        lemma_weight_within_total(axis, force_shrink, children, i, k - 1);
    }
}

/// A share is a coordinate, and `total` shares cost no more than the room
/// that is shared out, weight for weight.
proof fn lemma_share_bounds(wiggle: int, weight: int, total: int)
    requires
        i32::MIN <= wiggle <= i32::MAX,
        0 <= weight <= total,
        0 < total,
    ensures
        i32::MIN <= fill_share(wiggle, weight, total) <= i32::MAX,
        total * fill_share(wiggle, weight, total) <= wiggle * weight,
{
    let a = wiggle * weight;
    let q = a / total;
    vstd::arithmetic::div_mod::lemma_fundamental_div_mod(a, total);
    vstd::arithmetic::div_mod::lemma_mod_bound(a, total);
    assert(total * q <= a);
    assert(a < total * q + total);
    if wiggle >= 0 {
        assert(0 <= a <= wiggle * total) by (nonlinear_arith)
            requires
                a == wiggle * weight,
                0 <= wiggle,
                0 <= weight <= total,
        ;
        assert(q <= wiggle) by (nonlinear_arith)
            requires
                total * q <= a,
                a <= wiggle * total,
                0 < total,
        ;
        assert(q >= 0) by (nonlinear_arith)
            requires
                a < total * q + total,
                0 <= a,
                0 < total,
        ;
    } else {
        assert(wiggle * total <= a <= 0) by (nonlinear_arith)
            requires
                a == wiggle * weight,
                wiggle < 0,
                0 <= weight <= total,
        ;
        assert(q >= wiggle) by (nonlinear_arith)
            requires
                a < total * q + total,
                wiggle * total <= a,
                0 < total,
        ;
        assert(q <= 0) by (nonlinear_arith)
            requires
                total * q <= a,
                a <= 0,
                0 < total,
        ;
    }
}

/// The shares handed out never add up to more than the wiggle room where
/// the weights are positive, and to nothing where they are not.
proof fn lemma_shares_within_wiggle(plan: BoxPlan, children: Seq<ChildMeasure>, k: int)
    requires
        0 <= k <= children.len(),
        plan.total_filled_weight == filled_weight_upto(
            plan.config.axis,
            plan.force_shrink,
            children,
            children.len() as int,
        ),
    ensures
        plan.total_filled_weight == 0 ==> share_upto(plan, children, k) == 0,
        plan.total_filled_weight > 0 ==> plan.total_filled_weight * share_upto(plan, children, k)
            <= plan.wiggle_room * filled_weight_upto(
            plan.config.axis,
            plan.force_shrink,
            children,
            k,
        ),
    decreases k,
{
    if k > 0 {
        lemma_shares_within_wiggle(plan, children, k - 1);
        let axis = plan.config.axis;
        let total = plan.total_filled_weight as int;
        let wiggle = plan.wiggle_room as int;
        let c = children[k - 1];
        if total > 0 && fills_main(axis, c.hints, plan.force_shrink) {
            let weight = c.hints.weight as int;
            lemma_weight_within_total(
                axis,
                plan.force_shrink,
                children,
                k - 1,
                children.len() as int,
            );
            lemma_share_bounds(wiggle, weight, total);
            let share = fill_share(wiggle, weight, total);
            let before = share_upto(plan, children, k - 1);
            let weights = filled_weight_upto(axis, plan.force_shrink, children, k - 1);
            assert(total * (before + share) <= wiggle * (weights + weight)) by (nonlinear_arith)
                requires
                    total * before <= wiggle * weights,
                    total * share <= wiggle * weight,
            ;
        }
    }
}

/// What the first `k` children take is no more than what the shrinking
/// ones measured and the filling ones were offered, if each child keeps to
/// that.
proof fn lemma_extents_within_offers(
    plan: BoxPlan,
    children: Seq<ChildMeasure>,
    raw: Seq<LayoutModel>,
    k: int,
)
    requires
        0 <= k <= children.len(),
        children.len() == raw.len(),
        forall|i: int|
            0 <= i < raw.len() ==> main_extent(plan.config.axis, #[trigger] raw[i]) <= (if fills_main(
                plan.config.axis,
                children[i].hints,
                plan.force_shrink,
            ) {
                plan.child_available_spec(children[i].hints, 0).main_dir_spec(plan.config.axis)
            } else {
                children[i].shrink_size.main_dir_spec(plan.config.axis)
            }),
    ensures
        main_extent_upto(plan.config.axis, raw, k) <= shrink_space_upto(
            plan.config.axis,
            plan.force_shrink,
            children,
            k,
        ) + share_upto(plan, children, k),
    decreases k,
{
    if k > 0 {
        lemma_extents_within_offers(plan, children, raw, k - 1);
        assert(main_extent(plan.config.axis, raw[k - 1]) <= (if fills_main(
            plan.config.axis,
            children[k - 1].hints,
            plan.force_shrink,
        ) {
            plan.child_available_spec(children[k - 1].hints, 0).main_dir_spec(plan.config.axis)
        } else {
            children[k - 1].shrink_size.main_dir_spec(plan.config.axis)
        }));
    }
}

/// Where at least one child fills, the children's lengths and the gaps
/// between them never add up to more than the length on offer, provided
/// that no filling child takes more than its share of the wiggle room and
/// no shrinking child more than it measured.
///
/// Two kinds of input are left out because the sum can exceed the offer on
/// them: filling children whose weights are all zero beside shrinking
/// children that overflow the offer, and an offer so far below what the
/// shrinking children take that the difference is no coordinate.
pub proof fn lemma_fill_stays_within_available(
    config: BoxConfig,
    available: Vec2,
    force_shrink: bool,
    children: Seq<ChildMeasure>,
    raw: Seq<LayoutModel>,
)
    requires
        1 <= children.len() <= usize::MAX,
        children.len() == raw.len(),
        fill_count_upto(config.axis, force_shrink, children, children.len() as int) >= 1,
        forall|i: int|
            0 <= i < raw.len() ==> main_extent(config.axis, #[trigger] raw[i]) <= (if fills_main(
                config.axis,
                children[i].hints,
                force_shrink,
            ) {
                BoxPlan::measure_spec(
                    config,
                    available,
                    force_shrink,
                    children,
                ).child_available_spec(children[i].hints, 0).main_dir_spec(config.axis)
            } else {
                children[i].shrink_size.main_dir_spec(config.axis)
            }),
        BoxPlan::measure_spec(config, available, force_shrink, children).total_filled_weight > 0
            || BoxPlan::measure_spec(config, available, force_shrink, children).wiggle_room >= 0,
        available.main_dir_spec(config.axis) - (shrink_space_upto(
            config.axis,
            force_shrink,
            children,
            children.len() as int,
        ) + config.separation * (children.len() - 1)) >= i32::MIN,
    ensures
        main_extent_upto(config.axis, raw, raw.len() as int) + config.separation * (raw.len() - 1)
            <= available.main_dir_spec(config.axis),
{
    let plan = BoxPlan::measure_spec(config, available, force_shrink, children);
    let n = children.len() as int;
    let axis = config.axis;
    lemma_measure_bounds(axis, force_shrink, children, n);
    assert(0x1_0000_0000 * n <= 0x1_0000_0000 * 0x1_0000_0000_0000_0000) by (nonlinear_arith)
        requires
            n <= 0x1_0000_0000_0000_0000,
    ;
    assert(plan.total_filled_weight == filled_weight_upto(axis, force_shrink, children, n));
    lemma_extents_within_offers(plan, children, raw, n);
    lemma_shares_within_wiggle(plan, children, n);
    let total = plan.total_filled_weight as int;
    let shares = share_upto(plan, children, n);
    let wiggle = plan.wiggle_room as int;
    if total > 0 {
        assert(shares <= wiggle) by (nonlinear_arith)
            requires
                total * shares <= wiggle * total,
                total > 0,
        ;
    }
}

} // verus!
