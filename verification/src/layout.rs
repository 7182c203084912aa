//! The layout model: size hints, axes, alignment, and the tree of layout
//! nodes that one frame's layout pass produces.

use vstd::prelude::*;
use vstd::string::StringExecFns;
use crate::geometry::sat_add;
use crate::geometry::Pos2;
use crate::geometry::Rect;
use crate::geometry::Vec2;
use crate::widget_id::WidgetId;

verus! {

/// What a widget asks for along one axis.
#[derive(Copy, Clone, Debug, PartialEq, Eq, Structural)]
pub enum SizeHint {
    /// Take the natural size.
    Shrink,
    /// Take all the space on offer.
    Fill,
}

impl Default for SizeHint {
    fn default() -> (h: SizeHint)
        ensures
            h == SizeHint::Shrink,
    {
        SizeHint::Shrink
    }
}

impl SizeHint {
    /// The hint that counts once an ancestor has decided that this subtree
    /// must not grow.
    pub open spec fn or_force_spec(self, force_shrink: bool) -> SizeHint {
        if force_shrink {
            SizeHint::Shrink
        } else {
            self
        }
    }

    /// The warning that a widget which cannot shrink gives when it is told
    /// to: `struct_name` says which widget it is.
    pub open spec fn ignore_force_warning_text(struct_name: Seq<char>) -> Seq<char> {
        struct_name + " was requested to layout with force_shrink enabled. It is an error to use "@
            + struct_name + " inside another flex container, this request will be ignored."@
    }

    /// Words the warning of a widget that ignores `force_shrink`. To make
    /// it known is left to the caller.
    pub fn ignore_force_warning(struct_name: &str) -> (text: String)
        ensures
            text@ == SizeHint::ignore_force_warning_text(struct_name@),
    {
        String::from_str(struct_name).concat(
            " was requested to layout with force_shrink enabled. It is an error to use ",
        ).concat(struct_name).concat(
            " inside another flex container, this request will be ignored.",
        )
    }

    pub fn or_force(self, force_shrink: bool) -> (h: SizeHint)
        ensures
            h == self.or_force_spec(force_shrink),
    {
        if force_shrink {
            SizeHint::Shrink
        } else {
            self
        }
    }
}

/// One hint for each axis.
#[derive(Copy, Clone, Debug, PartialEq, Eq, Structural)]
pub struct SizeHints {
    pub width: SizeHint,
    pub height: SizeHint,
}

impl Default for SizeHints {
    fn default() -> (h: SizeHints)
        ensures
            h == (SizeHints { width: SizeHint::Shrink, height: SizeHint::Shrink }),
    {
        SizeHints { width: SizeHint::Shrink, height: SizeHint::Shrink }
    }
}

/// Size hints and the weight by which a widget that fills shares space with
/// its filling siblings. The weight of a widget that shrinks is never read.
#[derive(Copy, Clone, Debug, PartialEq, Eq, Structural)]
pub struct LayoutHints {
    pub size_hints: SizeHints,
    pub weight: u32,
}

impl Default for LayoutHints {
    fn default() -> (h: LayoutHints)
        ensures
            h == (LayoutHints {
                size_hints: SizeHints { width: SizeHint::Shrink, height: SizeHint::Shrink },
                weight: 1,
            }),
    {
        LayoutHints {
            size_hints: SizeHints { width: SizeHint::Shrink, height: SizeHint::Shrink },
            weight: 1,
        }
    }
}

impl LayoutHints {
    pub fn shrink() -> (h: LayoutHints)
        ensures
            h == (LayoutHints {
                size_hints: SizeHints { width: SizeHint::Shrink, height: SizeHint::Shrink },
                weight: 0,
            }),
    {
        LayoutHints {
            size_hints: SizeHints { width: SizeHint::Shrink, height: SizeHint::Shrink },
            weight: 0,
        }
    }

    pub fn fill() -> (h: LayoutHints)
        ensures
            h == (LayoutHints {
                size_hints: SizeHints { width: SizeHint::Fill, height: SizeHint::Fill },
                weight: 1,
            }),
    {
        LayoutHints {
            size_hints: SizeHints { width: SizeHint::Fill, height: SizeHint::Fill },
            weight: 1,
        }
    }

    pub fn fill_vertical() -> (h: LayoutHints)
        ensures
            h == (LayoutHints {
                size_hints: SizeHints { width: SizeHint::Shrink, height: SizeHint::Fill },
                weight: 1,
            }),
    {
        LayoutHints {
            size_hints: SizeHints { width: SizeHint::Shrink, height: SizeHint::Fill },
            weight: 1,
        }
    }

    pub fn fill_horizontal() -> (h: LayoutHints)
        ensures
            h == (LayoutHints {
                size_hints: SizeHints { width: SizeHint::Fill, height: SizeHint::Shrink },
                weight: 1,
            }),
    {
        LayoutHints {
            size_hints: SizeHints { width: SizeHint::Fill, height: SizeHint::Shrink },
            weight: 1,
        }
    }
}

/// Where content goes in space that it does not fill.
#[derive(Copy, Clone, Debug, PartialEq, Eq, Structural)]
pub enum Align {
    Start,
    End,
    Center,
}

impl Default for Align {
    fn default() -> (a: Align)
        ensures
            a == Align::Start,
    {
        Align::Start
    }
}

/// The direction along which a linear container places its children. The
/// other direction is its cross axis.
#[derive(Copy, Clone, Debug, PartialEq, Eq, Structural)]
pub enum Axis {
    Vertical,
    Horizontal,
}

/// Reading a two-dimensional value along a container's main axis or across
/// it, so that one algorithm serves rows and columns alike.
pub trait AxisDirections {
    type Output;

    spec fn main_dir_spec(&self, axis: Axis) -> Self::Output;

    spec fn cross_dir_spec(&self, axis: Axis) -> Self::Output;

    fn main_dir(&self, axis: Axis) -> (r: Self::Output)
        ensures
            r == self.main_dir_spec(axis),
    ;

    fn cross_dir(&self, axis: Axis) -> (r: Self::Output)
        ensures
            r == self.cross_dir_spec(axis),
    ;
}

impl AxisDirections for SizeHints {
    type Output = SizeHint;

    open spec fn main_dir_spec(&self, axis: Axis) -> SizeHint {
        match axis {
            Axis::Vertical => self.height,
            Axis::Horizontal => self.width,
        }
    }

    open spec fn cross_dir_spec(&self, axis: Axis) -> SizeHint {
        match axis {
            Axis::Vertical => self.width,
            Axis::Horizontal => self.height,
        }
    }

    fn main_dir(&self, axis: Axis) -> (r: SizeHint) {
        match axis {
            Axis::Vertical => self.height,
            Axis::Horizontal => self.width,
        }
    }

    fn cross_dir(&self, axis: Axis) -> (r: SizeHint) {
        match axis {
            Axis::Vertical => self.width,
            Axis::Horizontal => self.height,
        }
    }
}

impl AxisDirections for Vec2 {
    type Output = i32;

    open spec fn main_dir_spec(&self, axis: Axis) -> i32 {
        match axis {
            Axis::Vertical => self.y,
            Axis::Horizontal => self.x,
        }
    }

    open spec fn cross_dir_spec(&self, axis: Axis) -> i32 {
        match axis {
            Axis::Vertical => self.x,
            Axis::Horizontal => self.y,
        }
    }

    fn main_dir(&self, axis: Axis) -> (r: i32) {
        match axis {
            Axis::Vertical => self.y,
            Axis::Horizontal => self.x,
        }
    }

    fn cross_dir(&self, axis: Axis) -> (r: i32) {
        match axis {
            Axis::Vertical => self.x,
            Axis::Horizontal => self.y,
        }
    }
}

impl Axis {
    /// The vector with `main` along this axis and `cross` across it.
    pub open spec fn new_vec2_spec(self, main: i32, cross: i32) -> Vec2 {
        match self {
            Axis::Vertical => Vec2 { x: cross, y: main },
            Axis::Horizontal => Vec2 { x: main, y: cross },
        }
    }

    /// `v` with `delta_main` added along this axis and `delta_cross` across
    /// it, saturating.
    pub open spec fn vec2_add_spec(self, v: Vec2, delta_main: i32, delta_cross: i32) -> Vec2 {
        v.plus_spec(self.new_vec2_spec(delta_main, delta_cross))
    }

    /// `v` scaled by `scale_main` along this axis and by `scale_cross`
    /// across it, the factors being counted in parts of
    /// [`crate::transform::SCALE_ONE`].
    pub open spec fn vec2_scale_spec(self, v: Vec2, scale_main: i32, scale_cross: i32) -> Vec2 {
        self.new_vec2_spec(
            crate::transform::scale_unit(v.main_dir_spec(self) as int, scale_main as int) as i32,
            crate::transform::scale_unit(v.cross_dir_spec(self) as int, scale_cross as int) as i32,
        )
    }

    pub fn new_vec2(&self, main: i32, cross: i32) -> (v: Vec2)
        ensures
            v == self.new_vec2_spec(main, cross),
            v.main_dir_spec(*self) == main,
            v.cross_dir_spec(*self) == cross,
    {
        match self {
            Axis::Vertical => Vec2 { x: cross, y: main },
            Axis::Horizontal => Vec2 { x: main, y: cross },
        }
    }

    pub fn vec2_add_to_main(&self, v: Vec2, delta: i32) -> (r: Vec2)
        ensures
            r == self.vec2_add_spec(v, delta, 0),
    {
        match self {
            Axis::Vertical => Vec2 { x: v.x, y: sat_add(v.y, delta) },
            Axis::Horizontal => Vec2 { x: sat_add(v.x, delta), y: v.y },
        }
    }

    pub fn vec2_scale(&self, v: Vec2, scale_main: i32, scale_cross: i32) -> (r: Vec2)
        ensures
            r == self.vec2_scale_spec(v, scale_main, scale_cross),
    {
        match self {
            Axis::Vertical => Vec2 {
                x: crate::transform::scale_coord(v.x, scale_cross),
                y: crate::transform::scale_coord(v.y, scale_main),
            },
            Axis::Horizontal => Vec2 {
                x: crate::transform::scale_coord(v.x, scale_main),
                y: crate::transform::scale_coord(v.y, scale_cross),
            },
        }
    }

    pub fn vec2_add(&self, v: Vec2, delta_main: i32, delta_cross: i32) -> (r: Vec2)
        ensures
            r == self.vec2_add_spec(v, delta_main, delta_cross),
    {
        match self {
            Axis::Vertical => Vec2 { x: sat_add(v.x, delta_cross), y: sat_add(v.y, delta_main) },
            Axis::Horizontal => Vec2 { x: sat_add(v.x, delta_main), y: sat_add(v.y, delta_cross) },
        }
    }
}

/// One node of the layout tree: where a widget was placed, and its children.
///
/// A widget's `layout` gives bounds relative to its parent. Before the tree
/// is handed to the event and draw phases, [`Layout::to_absolute`] rewrites
/// every node's bounds into the coordinate space of the root.
#[derive(Debug)]
pub struct Layout {
    pub bounds: Rect,
    /// Identifies the widget that this node was computed for.
    pub widget_id: WidgetId,
    pub children: Vec<Layout>,
}

/// The mathematical value of a [`Layout`].
pub struct LayoutModel {
    pub bounds: Rect,
    pub widget_id: WidgetId,
    pub children: Seq<LayoutModel>,
}

impl LayoutModel {
    /// A node without children, its bounds starting at the origin.
    pub open spec fn leaf(widget_id: WidgetId, size: Vec2) -> LayoutModel {
        LayoutModel::with_children(widget_id, size, Seq::empty())
    }

    /// A node of the given size whose bounds start at the origin.
    pub open spec fn with_children(
        widget_id: WidgetId,
        size: Vec2,
        children: Seq<LayoutModel>,
    ) -> LayoutModel {
        LayoutModel {
            bounds: Rect::from_min_size_spec(Pos2::zero_spec(), size),
            widget_id,
            children,
        }
    }

    /// The node moved by `translation`. Children are relative to their
    /// parent, so they stay as they are.
    pub open spec fn translated(self, translation: Vec2) -> LayoutModel {
        LayoutModel { bounds: self.bounds.translate_spec(translation), ..self }
    }

    /// The node moved so that its bounds start at the origin, its size
    /// unchanged.
    pub open spec fn clear_translation(self) -> LayoutModel {
        LayoutModel {
            bounds: Rect::from_min_size_spec(Pos2::zero_spec(), self.bounds.size_spec()),
            ..self
        }
    }

    /// The tree with every node's bounds rewritten from parent-relative to
    /// the coordinate space in which this node's parent starts at
    /// `parent_offset`.
    pub open spec fn to_absolute(self, parent_offset: Vec2) -> LayoutModel
        decreases self,
    {
        let bounds = self.bounds.translate_spec(parent_offset);
        LayoutModel {
            bounds,
            widget_id: self.widget_id,
            children: Seq::new(
                self.children.len(),
                |i: int|
                    if 0 <= i < self.children.len() {
                        self.children[i].to_absolute(bounds.min.to_vec2_spec())
                    } else {
                        self
                    },
            ),
        }
    }
}

impl Layout {
    /// The mathematical value of this node and of everything below it.
    pub open spec fn model(&self) -> LayoutModel
        decreases self,
    {
        LayoutModel {
            bounds: self.bounds,
            widget_id: self.widget_id,
            children: Seq::new(
                self.children.len() as nat,
                |i: int|
                    if 0 <= i < self.children.len() {
                        self.children[i].model()
                    } else {
                        LayoutModel::leaf(self.widget_id, Vec2::zero_spec())
                    },
            ),
        }
    }
}

impl View for Layout {
    type V = LayoutModel;

    open spec fn view(&self) -> LayoutModel {
        self.model()
    }
}

/// The views of a list of layout nodes, in order.
pub open spec fn layout_views(nodes: Seq<Layout>) -> Seq<LayoutModel> {
    Seq::new(nodes.len(), |i: int| nodes[i]@)
}

impl Layout {
    /// The view of a node is made of its own fields and its children's views.
    pub proof fn lemma_view(&self)
        ensures
            self@.bounds == self.bounds,
            self@.widget_id == self.widget_id,
            self@.children == layout_views(self.children@),
    {
        assert(self@.children =~= layout_views(self.children@));
    }

    pub fn with_children(widget_id: WidgetId, size: Vec2, children: Vec<Layout>) -> (r: Layout)
        ensures
            r@ == LayoutModel::with_children(widget_id, size, layout_views(children@)),
    {
        let r = Layout { bounds: Rect::from_min_size(Pos2::zero(), size), children, widget_id };
        proof {
            r.lemma_view();
        }
        r
    }

    pub fn leaf(widget_id: WidgetId, size: Vec2) -> (r: Layout)
        ensures
            r@ == LayoutModel::leaf(widget_id, size),
    {
        let r = Layout {
            bounds: Rect::from_min_size(Pos2::zero(), size),
            children: Vec::new(),
            widget_id,
        };
        proof {
            r.lemma_view();
            assert(layout_views(r.children@) =~= Seq::empty());
        }
        r
    }

    pub fn translate(&mut self, translation: Vec2)
        ensures
            final(self)@ == old(self)@.translated(translation),
    {
        proof {
            self.lemma_view();
        }
        self.bounds = self.bounds.translate(translation);
        proof {
            self.lemma_view();
        }
    }

    pub fn translate_x(&mut self, dx: i32)
        ensures
            final(self)@ == old(self)@.translated(Vec2 { x: dx, y: 0 }),
    {
        self.translate(Vec2::new(dx, 0));
    }

    pub fn translate_y(&mut self, dy: i32)
        ensures
            final(self)@ == old(self)@.translated(Vec2 { x: 0, y: dy }),
    {
        self.translate(Vec2::new(0, dy));
    }

    pub fn translate_cross(&mut self, axis: Axis, d: i32)
        ensures
            final(self)@ == old(self)@.translated(axis.new_vec2_spec(0, d)),
    {
        match axis {
            Axis::Vertical => self.translate_x(d),
            Axis::Horizontal => self.translate_y(d),
        };
    }

    pub fn translate_main(&mut self, axis: Axis, d: i32)
        ensures
            final(self)@ == old(self)@.translated(axis.new_vec2_spec(d, 0)),
    {
        match axis {
            Axis::Vertical => self.translate_y(d),
            Axis::Horizontal => self.translate_x(d),
        };
    }

    pub fn translated(self, translation: Vec2) -> (r: Layout)
        ensures
            r@ == self@.translated(translation),
    {
        let mut this = self;
        this.translate(translation);
        this
    }

    pub fn clear_translation(self) -> (r: Layout)
        ensures
            r@ == self@.clear_translation(),
    {
        let mut this = self;
        proof {
            this.lemma_view();
        }
        this.bounds = Rect::from_min_size(Pos2::zero(), this.bounds.size());
        proof {
            this.lemma_view();
        }
        this
    }

    /// Rewrites the bounds of this node and of everything below it from
    /// parent-relative to absolute, given where the parent starts.
    pub fn to_absolute(&mut self, parent_offset: Vec2)
        ensures
            final(self)@ == old(self)@.to_absolute(parent_offset),
        decreases *old(self),
    {
        let ghost before = *self;
        proof {
            self.lemma_view();
        }
        self.bounds = self.bounds.translate(parent_offset);
        let origin = self.bounds.min.to_vec2();
        let n = self.children.len();
        let mut i: usize = 0;
        while i < n
            invariant
                i <= n,
                n == self.children.len(),
                n == before.children.len(),
                before == *old(self),
                self.bounds == before.bounds.translate_spec(parent_offset),
                self.widget_id == before.widget_id,
                origin == self.bounds.min.to_vec2_spec(),
                forall|j: int| i <= j < n ==> self.children[j] == before.children[j],
                forall|j: int|
                    0 <= j < i ==> (#[trigger] self.children[j])@ == before.children[j]@.to_absolute(
                        origin,
                    ),
            decreases n - i,
        {
            let ghost prev = self.children@;
            assert(self.children[i as int] == before.children[i as int]);
            self.children[i].to_absolute(origin);
            assert(forall|j: int| 0 <= j < n && j != i ==> self.children[j] == prev[j]);
            i += 1;
        }
        proof {
            self.lemma_view();
            before.lemma_view();
            assert(self@.children =~= before@.to_absolute(parent_offset).children);
        }
    }
}

/// Moving a node to the origin keeps its size.
pub proof fn lemma_clear_translation_keeps_size(node: LayoutModel)
    ensures
        node.clear_translation().bounds.size_spec() == node.bounds.size_spec(),
        node.clear_translation().bounds.min == Pos2::zero_spec(),
{
}

/// Moving a node to the origin and then by `v` keeps its size too, as long
/// as its far corner stays within the coordinate range.
pub proof fn lemma_clear_then_translate_keeps_size(node: LayoutModel, v: Vec2)
    requires
        i32::MIN <= node.bounds.size_spec().x + v.x <= i32::MAX,
        i32::MIN <= node.bounds.size_spec().y + v.y <= i32::MAX,
    ensures
        node.clear_translation().translated(v).bounds.size_spec() == node.bounds.size_spec(),
{
}

/// Moving a node to the origin and then by `v` leaves the corner of its
/// bounds at `v`, wherever the node was before.
pub proof fn lemma_clear_translation_then_translated(node: LayoutModel, v: Vec2)
    ensures
        node.clear_translation().translated(v).bounds.min == (Pos2 { x: v.x, y: v.y }),
{
}

} // verus!
