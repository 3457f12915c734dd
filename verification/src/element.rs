//! The retained-mode element tree.
//!
//! Elements live in an arena owned by [`Ui`] and are referred to by
//! index. Every element carries a `rank`, strictly larger than the rank
//! of each of its children: ranks give the tree a well-founded order, so
//! recursion over it terminates even though children can be attached
//! after their parent exists (see [`Ui::attach_child`]).
//!
//! Invalidation is conservative: [`Ui::mutate`] rewrites an element's
//! visual content and always sets the dirty flag the element shares with
//! its frame buffer, whether or not the rewrite changed anything. Layout
//! is computed by [`Ui::render`], which walks the visible part of a
//! subtree, publishes each element's absolute bounding box for later
//! hit-testing, and returns the draw commands for the renderer.

use vstd::prelude::*;

use crate::music::trunc_div;
use crate::reactive::Reactive;
use crate::reactive::ReactiveStore;
use crate::reactive::ReactiveSubscriptionId;
use crate::style::Colour;
use crate::style::Style;

verus! {

/// One axis of an element's position, relative to its parent.
#[derive(Clone, Copy, Debug, PartialEq, Eq, Structural)]
pub enum Coordinate {
    /// A fixed offset in pixels.
    Fixed(i64),
    /// A fraction of the parent's extent, in thousandths.
    FractionOfParent(u32),
    /// A fraction of the parent's extent plus a pixel offset.
    FractionOfParentWithOffset(u32, i64),
}

/// A relative position.
#[derive(Clone, Copy, Debug, PartialEq, Eq, Structural)]
pub struct Position {
    pub x: Coordinate,
    pub y: Coordinate,
}

/// One axis of an element's size, relative to its parent.
#[derive(Clone, Copy, Debug, PartialEq, Eq, Structural)]
pub enum Size {
    Fixed(i64),
    FractionOfParent(u32),
    FractionOfParentWithOffset(u32, i64),
}

/// A relative size.
#[derive(Clone, Copy, Debug, PartialEq, Eq, Structural)]
pub struct Dimensions {
    pub width: Size,
    pub height: Size,
}

/// An absolute position in pixels.
#[derive(Clone, Copy, Debug, PartialEq, Eq, Structural)]
pub struct ComputedPosition {
    pub x: i64,
    pub y: i64,
}

/// An absolute size in pixels.
#[derive(Clone, Copy, Debug, PartialEq, Eq, Structural)]
pub struct ComputedDimensions {
    pub width: i64,
    pub height: i64,
}

/// An absolute rectangle, published by rendering and read by
/// hit-testing.
#[derive(Clone, Copy, Debug, PartialEq, Eq, Structural)]
pub struct ComputedBoundingBox {
    pub top_left: ComputedPosition,
    pub bottom_right: ComputedPosition,
}

impl ComputedBoundingBox {
    /// Whether `pos` falls inside this rectangle.
    pub open spec fn spec_contains(self, pos: ComputedPosition) -> bool {
        &&& pos.x >= self.top_left.x
        &&& pos.x <= self.bottom_right.x
        &&& pos.y >= self.top_left.y
        &&& pos.y <= self.bottom_right.y
    }

    pub fn contains(&self, pos: ComputedPosition) -> (r: bool)
        ensures
            r == self.spec_contains(pos),
    {
        pos.x >= self.top_left.x && pos.x <= self.bottom_right.x && pos.y >= self.top_left.y
            && pos.y <= self.bottom_right.y
    }
}

/// Clamps a mathematical value into the pixel range.
pub open spec fn clamp64(v: int) -> int {
    if v < i64::MIN {
        i64::MIN as int
    } else if v > i64::MAX {
        i64::MAX as int
    } else {
        v
    }
}

/// The absolute value of one coordinate axis against a parent extent.
pub open spec fn coord_value(c: Coordinate, parent: int) -> int {
    match c {
        Coordinate::Fixed(v) => v as int,
        Coordinate::FractionOfParent(f) => clamp64(trunc_div(parent * f, 1000)),
        Coordinate::FractionOfParentWithOffset(f, off) => clamp64(
            trunc_div(parent * f, 1000) + off,
        ),
    }
}

/// The absolute value of one size axis against a parent extent.
pub open spec fn size_value(s: Size, parent: int) -> int {
    match s {
        Size::Fixed(v) => v as int,
        Size::FractionOfParent(f) => clamp64(trunc_div(parent * f, 1000)),
        Size::FractionOfParentWithOffset(f, off) => clamp64(trunc_div(parent * f, 1000) + off),
    }
}

fn clamp_i128(v: i128) -> (r: i64)
    ensures
        r == clamp64(v as int),
{
    if v < i64::MIN as i128 {
        i64::MIN
    } else if v > i64::MAX as i128 {
        i64::MAX
    } else {
        v as i64
    }
}

fn trunc_div_1000(n: i128) -> (r: i128)
    requires
        -0x4000_0000_0000_0000_0000_0000_0000_0000 <= n
            < 0x4000_0000_0000_0000_0000_0000_0000_0000,
    ensures
        r == trunc_div(n as int, 1000),
        -0x4000_0000_0000_0000_0000_0000_0000_0000 <= r
            < 0x4000_0000_0000_0000_0000_0000_0000_0000,
{
    if n >= 0 {
        n / 1000
    } else {
        -((-n) / 1000)
    }
}

/// The parent extent scaled by a per-mille factor, exactly, in the wide
/// intermediate type.
fn scaled(parent: i64, f: u32) -> (r: i128)
    ensures
        r as int == parent as int * f as int,
        -0x4000_0000_0000_0000_0000_0000_0000_0000 <= r
            < 0x4000_0000_0000_0000_0000_0000_0000_0000,
{
    proof {
        assert((parent as int) * (f as int) < 0x4000_0000_0000_0000_0000_0000_0000_0000) by (nonlinear_arith)
            requires
                parent <= i64::MAX,
                parent >= i64::MIN,
                f <= u32::MAX,
                f >= 0,
        {
        }
        assert((parent as int) * (f as int) >= -0x4000_0000_0000_0000_0000_0000_0000_0000) by (nonlinear_arith)
            requires
                parent <= i64::MAX,
                parent >= i64::MIN,
                f <= u32::MAX,
                f >= 0,
        {
        }
    }
    parent as i128 * f as i128
}

impl Coordinate {
    /// The absolute pixel value of this coordinate, clamped to the pixel
    /// range.
    pub fn compute(&self, parent_size: i64) -> (r: i64)
        ensures
            r == coord_value(*self, parent_size as int),
    {
        match self {
            Coordinate::Fixed(v) => *v,
            Coordinate::FractionOfParent(f) => {
                clamp_i128(trunc_div_1000(scaled(parent_size, *f)))
            },
            Coordinate::FractionOfParentWithOffset(f, off) => {
                clamp_i128(trunc_div_1000(scaled(parent_size, *f)) + *off as i128)
            },
        }
    }
}

impl Size {
    /// The absolute pixel value of this size, clamped to the pixel range.
    pub fn to_size(&self, parent_size: i64) -> (r: i64)
        ensures
            r == size_value(*self, parent_size as int),
    {
        match self {
            Size::Fixed(v) => *v,
            Size::FractionOfParent(f) => {
                clamp_i128(trunc_div_1000(scaled(parent_size, *f)))
            },
            Size::FractionOfParentWithOffset(f, off) => {
                clamp_i128(trunc_div_1000(scaled(parent_size, *f)) + *off as i128)
            },
        }
    }
}

impl Position {
    /// The origin: both axes fixed at zero.
    pub fn origin() -> (r: Self)
        ensures
            r == (Position { x: Coordinate::Fixed(0), y: Coordinate::Fixed(0) }),
    {
        Position { x: Coordinate::Fixed(0), y: Coordinate::Fixed(0) }
    }

    /// The absolute pixel position against the parent's computed size.
    pub fn compute(&self, parent_dims: &ComputedDimensions) -> (r: ComputedPosition)
        ensures
            r.x == coord_value(self.x, parent_dims.width as int),
            r.y == coord_value(self.y, parent_dims.height as int),
    {
        ComputedPosition {
            x: self.x.compute(parent_dims.width),
            y: self.y.compute(parent_dims.height),
        }
    }
}

/// Text shown inside an element.
pub struct TextNode {
    pub content: String,
    pub size: i64,
    pub colour: Colour,
}

/// The visual content of an element: everything [`Ui::mutate`] may
/// rewrite.
pub struct ElementContent {
    pub position: Position,
    pub dimensions: Dimensions,
    pub style: Style,
    pub text_node: Option<TextNode>,
}

/// One node of the element tree.
pub struct ElementNode {
    pub content: ElementContent,
    pub children: Vec<usize>,
    pub rank: usize,
    pub dirty_flag: usize,
    pub bounding_box: Option<ComputedBoundingBox>,
    pub cleanup_subs: Vec<ReactiveSubscriptionId>,
    pub alive: bool,
}

/// One quad for the renderer: an element's absolute rectangle and style.
#[derive(Clone, Copy, Debug, PartialEq, Eq, Structural)]
pub struct DrawCommand {
    pub element: usize,
    pub x: i64,
    pub y: i64,
    pub width: i64,
    pub height: i64,
    pub style: Style,
}

/// A mutation subscription: changes delivered to `subscription` mark
/// `element` dirty.
#[derive(Clone, Copy, Debug, PartialEq, Eq, Structural)]
pub struct Binding {
    pub subscription: ReactiveSubscriptionId,
    pub element: usize,
}

/// Tree shape of an element arena: children indices are valid and carry
/// strictly smaller ranks than their parents.
pub open spec fn tree_wf(nodes: Seq<ElementNode>) -> bool {
    &&& (forall|i: int, k: int|
        0 <= i < nodes.len() && 0 <= k < nodes[i].children@.len() ==> (
        #[trigger] nodes[i].children@[k]) < nodes.len())
    &&& (forall|i: int, k: int|
        0 <= i < nodes.len() && 0 <= k < nodes[i].children@.len() ==> nodes[(
        #[trigger] nodes[i].children@[k]) as int].rank < nodes[i].rank)
}

/// Layout of the subtree under `elem`: draw commands of visible
/// self-rendering elements and bounding boxes of visible elements, in
/// depth-first order. `fuel` only bounds the recursion; any amount above
/// the element's rank gives the same result.
pub open spec fn spec_render(
    nodes: Seq<ElementNode>,
    elem: int,
    ox: int,
    oy: int,
    pw: int,
    ph: int,
    fuel: nat,
) -> (Seq<DrawCommand>, Seq<(usize, ComputedBoundingBox)>)
    decreases fuel, 0int, 0int,
{
    if fuel == 0 || !(0 <= elem < nodes.len()) {
        (Seq::empty(), Seq::empty())
    } else {
        let node = nodes[elem];
        if !node.content.style.visible {
            (Seq::empty(), Seq::empty())
        } else {
            let w = size_value(node.content.dimensions.width, pw);
            let h = size_value(node.content.dimensions.height, ph);
            let px = clamp64(ox + coord_value(node.content.position.x, pw));
            let py = clamp64(oy + coord_value(node.content.position.y, ph));
            let bb = ComputedBoundingBox {
                top_left: ComputedPosition { x: px as i64, y: py as i64 },
                bottom_right: ComputedPosition {
                    x: clamp64(px + w) as i64,
                    y: clamp64(py + h) as i64,
                },
            };
            let own_cmds: Seq<DrawCommand> = if node.content.style.render_self {
                seq![
                    DrawCommand {
                        element: elem as usize,
                        x: px as i64,
                        y: py as i64,
                        width: w as i64,
                        height: h as i64,
                        style: node.content.style,
                    },
                ]
            } else {
                Seq::empty()
            };
            let own_boxes: Seq<(usize, ComputedBoundingBox)> = seq![(elem as usize, bb)];
            let rest = spec_render_children(
                nodes,
                node.children@,
                0,
                node.children@.len() as int,
                px,
                py,
                w,
                h,
                (fuel - 1) as nat,
            );
            (own_cmds + rest.0, own_boxes + rest.1)
        }
    }
}

/// Layout of the children slice `[i, j)`, concatenated in order.
pub open spec fn spec_render_children(
    nodes: Seq<ElementNode>,
    children: Seq<usize>,
    i: int,
    j: int,
    ox: int,
    oy: int,
    pw: int,
    ph: int,
    fuel: nat,
) -> (Seq<DrawCommand>, Seq<(usize, ComputedBoundingBox)>)
    decreases fuel, 1int, (if j - i >= 0 { j - i } else { 0int }),
{
    if i >= j || i < 0 || j > children.len() {
        (Seq::empty(), Seq::empty())
    } else {
        let first = spec_render(nodes, children[i] as int, ox, oy, pw, ph, fuel);
        let rest = spec_render_children(nodes, children, i + 1, j, ox, oy, pw, ph, fuel);
        (first.0 + rest.0, first.1 + rest.1)
    }
}

/// Extending the children slice by one appends that child's layout.
pub proof fn lemma_spec_render_children_snoc(
    nodes: Seq<ElementNode>,
    children: Seq<usize>,
    i: int,
    k: int,
    ox: int,
    oy: int,
    pw: int,
    ph: int,
    fuel: nat,
)
    requires
        0 <= i <= k < children.len(),
    ensures
        spec_render_children(nodes, children, i, k + 1, ox, oy, pw, ph, fuel).0
            == spec_render_children(nodes, children, i, k, ox, oy, pw, ph, fuel).0 + spec_render(
            nodes,
            children[k] as int,
            ox,
            oy,
            pw,
            ph,
            fuel,
        ).0,
        spec_render_children(nodes, children, i, k + 1, ox, oy, pw, ph, fuel).1
            == spec_render_children(nodes, children, i, k, ox, oy, pw, ph, fuel).1 + spec_render(
            nodes,
            children[k] as int,
            ox,
            oy,
            pw,
            ph,
            fuel,
        ).1,
    decreases k - i,
{
    if i == k {
        assert(spec_render_children(nodes, children, i, i, ox, oy, pw, ph, fuel).0
            =~= Seq::<DrawCommand>::empty());
        assert(spec_render_children(nodes, children, i, i + 1, ox, oy, pw, ph, fuel).0
            =~= spec_render(nodes, children[i] as int, ox, oy, pw, ph, fuel).0
            + spec_render_children(nodes, children, i + 1, i + 1, ox, oy, pw, ph, fuel).0);
        assert(spec_render_children(nodes, children, i, i + 1, ox, oy, pw, ph, fuel).0
            =~= spec_render_children(nodes, children, i, i, ox, oy, pw, ph, fuel).0 + spec_render(
            nodes,
            children[i] as int,
            ox,
            oy,
            pw,
            ph,
            fuel,
        ).0);
        assert(spec_render_children(nodes, children, i, i + 1, ox, oy, pw, ph, fuel).1
            =~= spec_render_children(nodes, children, i, i, ox, oy, pw, ph, fuel).1 + spec_render(
            nodes,
            children[i] as int,
            ox,
            oy,
            pw,
            ph,
            fuel,
        ).1);
    } else {
        lemma_spec_render_children_snoc(nodes, children, i + 1, k, ox, oy, pw, ph, fuel);
        assert(spec_render_children(nodes, children, i, k + 1, ox, oy, pw, ph, fuel).0
            =~= spec_render_children(nodes, children, i, k, ox, oy, pw, ph, fuel).0 + spec_render(
            nodes,
            children[k] as int,
            ox,
            oy,
            pw,
            ph,
            fuel,
        ).0);
        assert(spec_render_children(nodes, children, i, k + 1, ox, oy, pw, ph, fuel).1
            =~= spec_render_children(nodes, children, i, k, ox, oy, pw, ph, fuel).1 + spec_render(
            nodes,
            children[k] as int,
            ox,
            oy,
            pw,
            ph,
            fuel,
        ).1);
    }
}

/// Above the element's rank, the fuel does not matter.
pub proof fn lemma_spec_render_fuel(
    nodes: Seq<ElementNode>,
    elem: int,
    ox: int,
    oy: int,
    pw: int,
    ph: int,
    f1: nat,
    f2: nat,
)
    requires
        tree_wf(nodes),
        0 <= elem < nodes.len(),
        f1 > nodes[elem].rank,
        f2 > nodes[elem].rank,
    ensures
        spec_render(nodes, elem, ox, oy, pw, ph, f1) == spec_render(
            nodes,
            elem,
            ox,
            oy,
            pw,
            ph,
            f2,
        ),
    decreases f1 + f2, 0int, 0int,
{
    let node = nodes[elem];
    if node.content.style.visible {
        let w = size_value(node.content.dimensions.width, pw);
        let h = size_value(node.content.dimensions.height, ph);
        let px = clamp64(ox + coord_value(node.content.position.x, pw));
        let py = clamp64(oy + coord_value(node.content.position.y, ph));
        lemma_spec_render_children_fuel(
            nodes,
            node.children@,
            0,
            node.children@.len() as int,
            px,
            py,
            w,
            h,
            (f1 - 1) as nat,
            (f2 - 1) as nat,
            node.rank as nat,
        );
    }
}

/// Fuel-independence for a children slice whose ranks sit below `bound`.
pub proof fn lemma_spec_render_children_fuel(
    nodes: Seq<ElementNode>,
    children: Seq<usize>,
    i: int,
    j: int,
    ox: int,
    oy: int,
    pw: int,
    ph: int,
    f1: nat,
    f2: nat,
    bound: nat,
)
    requires
        tree_wf(nodes),
        forall|k: int|
            i <= k < j && 0 <= k < children.len() ==> (#[trigger] children[k]) < nodes.len()
                && nodes[children[k] as int].rank < bound,
        f1 >= bound,
        f2 >= bound,
    ensures
        spec_render_children(nodes, children, i, j, ox, oy, pw, ph, f1) == spec_render_children(
            nodes,
            children,
            i,
            j,
            ox,
            oy,
            pw,
            ph,
            f2,
        ),
    decreases f1 + f2, 1int, (if j - i >= 0 { j - i } else { 0int }),
{
    if i >= j || i < 0 || j > children.len() {
    } else {
        lemma_spec_render_fuel(nodes, children[i] as int, ox, oy, pw, ph, f1, f2);
        lemma_spec_render_children_fuel(
            nodes,
            children,
            i + 1,
            j,
            ox,
            oy,
            pw,
            ph,
            f1,
            f2,
            bound,
        );
    }
}

/// The reactive subscription ids registered in the subtree under `elem`,
/// in depth-first order.
pub open spec fn spec_cleanup_ids(nodes: Seq<ElementNode>, elem: int, fuel: nat) -> Seq<
    ReactiveSubscriptionId,
>
    decreases fuel, 0int, 0int,
{
    if fuel == 0 || !(0 <= elem < nodes.len()) {
        Seq::empty()
    } else {
        nodes[elem].cleanup_subs@ + spec_cleanup_children(
            nodes,
            nodes[elem].children@,
            0,
            nodes[elem].children@.len() as int,
            (fuel - 1) as nat,
        )
    }
}

/// Subscription ids of the children slice `[i, j)`, concatenated.
pub open spec fn spec_cleanup_children(
    nodes: Seq<ElementNode>,
    children: Seq<usize>,
    i: int,
    j: int,
    fuel: nat,
) -> Seq<ReactiveSubscriptionId>
    decreases fuel, 1int, (if j - i >= 0 { j - i } else { 0int }),
{
    if i >= j || i < 0 || j > children.len() {
        Seq::empty()
    } else {
        spec_cleanup_ids(nodes, children[i] as int, fuel) + spec_cleanup_children(
            nodes,
            children,
            i + 1,
            j,
            fuel,
        )
    }
}

/// Extending the children slice by one appends that child's ids.
pub proof fn lemma_cleanup_children_snoc(
    nodes: Seq<ElementNode>,
    children: Seq<usize>,
    i: int,
    k: int,
    fuel: nat,
)
    requires
        0 <= i <= k < children.len(),
    ensures
        spec_cleanup_children(nodes, children, i, k + 1, fuel) == spec_cleanup_children(
            nodes,
            children,
            i,
            k,
            fuel,
        ) + spec_cleanup_ids(nodes, children[k] as int, fuel),
    decreases k - i,
{
    if i == k {
        assert(spec_cleanup_children(nodes, children, i + 1, i + 1, fuel)
            =~= Seq::<ReactiveSubscriptionId>::empty());
        assert(spec_cleanup_children(nodes, children, i, i, fuel)
            =~= Seq::<ReactiveSubscriptionId>::empty());
        assert(spec_cleanup_children(nodes, children, i, i + 1, fuel) =~= spec_cleanup_children(
            nodes,
            children,
            i,
            i,
            fuel,
        ) + spec_cleanup_ids(nodes, children[i] as int, fuel));
    } else {
        lemma_cleanup_children_snoc(nodes, children, i + 1, k, fuel);
        assert(spec_cleanup_children(nodes, children, i, k + 1, fuel) =~= spec_cleanup_children(
            nodes,
            children,
            i,
            k,
            fuel,
        ) + spec_cleanup_ids(nodes, children[k] as int, fuel));
    }
}

/// Above the element's rank, the fuel does not matter.
pub proof fn lemma_cleanup_fuel(nodes: Seq<ElementNode>, elem: int, f1: nat, f2: nat)
    requires
        tree_wf(nodes),
        0 <= elem < nodes.len(),
        f1 > nodes[elem].rank,
        f2 > nodes[elem].rank,
    ensures
        spec_cleanup_ids(nodes, elem, f1) == spec_cleanup_ids(nodes, elem, f2),
    decreases f1 + f2, 0int, 0int,
{
    lemma_cleanup_children_fuel(
        nodes,
        nodes[elem].children@,
        0,
        nodes[elem].children@.len() as int,
        (f1 - 1) as nat,
        (f2 - 1) as nat,
        nodes[elem].rank as nat,
    );
}

/// Fuel-independence for a children slice whose ranks sit below `bound`.
pub proof fn lemma_cleanup_children_fuel(
    nodes: Seq<ElementNode>,
    children: Seq<usize>,
    i: int,
    j: int,
    f1: nat,
    f2: nat,
    bound: nat,
)
    requires
        tree_wf(nodes),
        forall|k: int|
            i <= k < j && 0 <= k < children.len() ==> (#[trigger] children[k]) < nodes.len()
                && nodes[children[k] as int].rank < bound,
        f1 >= bound,
        f2 >= bound,
    ensures
        spec_cleanup_children(nodes, children, i, j, f1) == spec_cleanup_children(
            nodes,
            children,
            i,
            j,
            f2,
        ),
    decreases f1 + f2, 1int, (if j - i >= 0 { j - i } else { 0int }),
{
    if i >= j || i < 0 || j > children.len() {
    } else {
        lemma_cleanup_fuel(nodes, children[i] as int, f1, f2);
        lemma_cleanup_children_fuel(nodes, children, i + 1, j, f1, f2, bound);
    }
}

/// The collected ids only read the subscription lists and the tree shape,
/// so they are unchanged by liveness marking.
pub proof fn lemma_cleanup_ids_same(
    nodes1: Seq<ElementNode>,
    nodes2: Seq<ElementNode>,
    elem: int,
    fuel: nat,
)
    requires
        nodes1.len() == nodes2.len(),
        forall|i: int|
            0 <= i < nodes1.len() ==> (#[trigger] nodes1[i]).cleanup_subs == nodes2[i].cleanup_subs
                && nodes1[i].children == nodes2[i].children,
    ensures
        spec_cleanup_ids(nodes1, elem, fuel) == spec_cleanup_ids(nodes2, elem, fuel),
    decreases fuel, 0int, 0int,
{
    if fuel == 0 || !(0 <= elem < nodes1.len()) {
    } else {
        lemma_cleanup_children_same(
            nodes1,
            nodes2,
            nodes1[elem].children@,
            0,
            nodes1[elem].children@.len() as int,
            (fuel - 1) as nat,
        );
    }
}

/// Slice version of [`lemma_cleanup_ids_same`].
pub proof fn lemma_cleanup_children_same(
    nodes1: Seq<ElementNode>,
    nodes2: Seq<ElementNode>,
    children: Seq<usize>,
    i: int,
    j: int,
    fuel: nat,
)
    requires
        nodes1.len() == nodes2.len(),
        forall|ii: int|
            0 <= ii < nodes1.len() ==> (#[trigger] nodes1[ii]).cleanup_subs
                == nodes2[ii].cleanup_subs && nodes1[ii].children == nodes2[ii].children,
    ensures
        spec_cleanup_children(nodes1, children, i, j, fuel) == spec_cleanup_children(
            nodes2,
            children,
            i,
            j,
            fuel,
        ),
    decreases fuel, 1int, (if j - i >= 0 { j - i } else { 0int }),
{
    if i >= j || i < 0 || j > children.len() {
    } else {
        lemma_cleanup_ids_same(nodes1, nodes2, children[i] as int, fuel);
        lemma_cleanup_children_same(nodes1, nodes2, children, i + 1, j, fuel);
    }
}

/// The element arena, the shared dirty flags and the reactive bindings.
pub struct Ui {
    pub nodes: Vec<ElementNode>,
    pub flags: Vec<bool>,
    pub bindings: Vec<Binding>,
}

/// A deferred element creation: creating an element inside a data-event
/// callback may need context that is not available there, so requests
/// queue up and a frame step fulfils them; see [`Ui::fulfil_queue`].
pub struct CreateElementRequest {
    pub parent: usize,
    pub content: ElementContent,
    pub dirty_flag: usize,
    pub rank: usize,
    pub children: Vec<usize>,
}

/// Mathematical state of one element node.
#[verifier::ext_equal]
pub ghost struct NodeModel {
    pub content: ElementContent,
    pub children: Seq<usize>,
    pub rank: usize,
    pub dirty_flag: usize,
    pub bounding_box: Option<ComputedBoundingBox>,
    pub cleanup_subs: Seq<ReactiveSubscriptionId>,
    pub alive: bool,
}

/// The mathematical state of an element node.
pub open spec fn node_model(n: ElementNode) -> NodeModel {
    NodeModel {
        content: n.content,
        children: n.children@,
        rank: n.rank,
        dirty_flag: n.dirty_flag,
        bounding_box: n.bounding_box,
        cleanup_subs: n.cleanup_subs@,
        alive: n.alive,
    }
}

/// The mathematical state of a whole arena.
pub open spec fn nodes_model(nodes: Seq<ElementNode>) -> Seq<NodeModel> {
    nodes.map_values(|n: ElementNode| node_model(n))
}

/// Mathematical form of a deferred-creation request.
#[verifier::ext_equal]
pub ghost struct RequestModel {
    pub parent: usize,
    pub content: ElementContent,
    pub dirty_flag: usize,
    pub rank: usize,
    pub children: Seq<usize>,
}

impl View for CreateElementRequest {
    type V = RequestModel;

    open spec fn view(&self) -> RequestModel {
        RequestModel {
            parent: self.parent,
            content: self.content,
            dirty_flag: self.dirty_flag,
            rank: self.rank,
            children: self.children@,
        }
    }
}

/// Whether a request fits an arena: its parent and children exist, its
/// dirty flag is valid, and its rank sits between its children's and its
/// parent's.
pub open spec fn spec_request_ok(ns: Seq<NodeModel>, n_flags: int, req: RequestModel) -> bool {
    &&& req.parent < ns.len()
    &&& req.dirty_flag < n_flags
    &&& req.rank < ns[req.parent as int].rank
    &&& (forall|k: int| 0 <= k < req.children.len() ==> (#[trigger] req.children[k]) < ns.len())
    &&& (forall|k: int|
        0 <= k < req.children.len() ==> ns[(#[trigger] req.children[k]) as int].rank < req.rank)
}

/// The arena and flags after fulfilling one request: a fitting request
/// appends the new element (dirty flag set, no bounding box, no cleanup
/// subscriptions, alive) and attaches it under its parent; a request
/// that does not fit changes nothing.
pub open spec fn spec_fulfil_one(
    ns: Seq<NodeModel>,
    flags: Seq<bool>,
    req: RequestModel,
) -> (Seq<NodeModel>, Seq<bool>) {
    if spec_request_ok(ns, flags.len() as int, req) {
        let elem = ns.len() as usize;
        let fresh = NodeModel {
            content: req.content,
            children: req.children,
            rank: req.rank,
            dirty_flag: req.dirty_flag,
            bounding_box: None,
            cleanup_subs: Seq::empty(),
            alive: true,
        };
        let grown = ns.push(fresh);
        let parent0 = grown[req.parent as int];
        (
            grown.update(
                req.parent as int,
                NodeModel { children: parent0.children.push(elem), ..parent0 },
            ),
            flags.update(req.dirty_flag as int, true),
        )
    } else {
        (ns, flags)
    }
}

/// The arena and flags after fulfilling a queue of requests in order,
/// each against the arena as its predecessors left it.
pub open spec fn spec_fulfil(
    ns: Seq<NodeModel>,
    flags: Seq<bool>,
    reqs: Seq<RequestModel>,
) -> (Seq<NodeModel>, Seq<bool>)
    decreases reqs.len(),
{
    if reqs.len() == 0 {
        (ns, flags)
    } else {
        let step = spec_fulfil_one(ns, flags, reqs[0]);
        spec_fulfil(step.0, step.1, reqs.drop_first())
    }
}

/// The queue of deferred element creations, drained once per frame.
pub struct ElementCreationQueue {
    pub requests: Vec<CreateElementRequest>,
}

impl View for ElementCreationQueue {
    type V = Seq<RequestModel>;

    open spec fn view(&self) -> Seq<RequestModel> {
        self.requests@.map_values(|r: CreateElementRequest| r@)
    }
}

impl ElementCreationQueue {
    pub fn new() -> (r: Self)
        ensures
            r@.len() == 0,
    {
        ElementCreationQueue { requests: Vec::new() }
    }

    /// Enqueues a request for the next frame step.
    pub fn queue_element(&mut self, req: CreateElementRequest)
        ensures
            final(self)@ == old(self)@.push(req@),
    {
        let ghost rm = req@;
        self.requests.push(req);
        proof {
            assert(self@ =~= old(self)@.push(rm));
        }
    }
}

impl Ui {
    /// Arena invariant: every child index is a valid node of strictly
    /// smaller rank, and every dirty flag index is valid.
    pub open spec fn wf(&self) -> bool {
        &&& tree_wf(self.nodes@)
        &&& (forall|i: int|
            0 <= i < self.nodes@.len() ==> (#[trigger] self.nodes@[i]).dirty_flag
                < self.flags@.len())
    }

    pub fn new() -> (r: Self)
        ensures
            r.wf(),
            r.nodes@.len() == 0,
            r.flags@.len() == 0,
            r.bindings@.len() == 0,
    {
        Ui { nodes: Vec::new(), flags: Vec::new(), bindings: Vec::new() }
    }

    /// Creates a dirty flag, initially clear, shared between a frame
    /// buffer and the elements drawn into it.
    pub fn new_flag(&mut self) -> (flag: usize)
        requires
            old(self).wf(),
        ensures
            final(self).wf(),
            flag == old(self).flags@.len(),
            final(self).flags@ == old(self).flags@.push(false),
            final(self).nodes@ == old(self).nodes@,
            final(self).bindings@ == old(self).bindings@,
    {
        let flag = self.flags.len();
        self.flags.push(false);
        flag
    }

    /// Registers a new element and immediately marks its dirty flag:
    /// newly created elements force a redraw. Children must already
    /// exist and have ranks below `min_rank`; the element's rank is at
    /// least `min_rank`, leaving headroom for children attached later.
    pub fn new_element(
        &mut self,
        content: ElementContent,
        dirty_flag: usize,
        min_rank: usize,
        children: Vec<usize>,
    ) -> (elem: usize)
        requires
            old(self).wf(),
            dirty_flag < old(self).flags@.len(),
            forall|k: int|
                0 <= k < children@.len() ==> (#[trigger] children@[k]) < old(self).nodes@.len(),
            forall|k: int|
                0 <= k < children@.len() ==> old(self).nodes@[(#[trigger] children@[k]) as int].rank
                    < min_rank,
        ensures
            final(self).wf(),
            elem == old(self).nodes@.len(),
            final(self).nodes@.len() == old(self).nodes@.len() + 1,
            forall|i: int|
                0 <= i < old(self).nodes@.len() ==> final(self).nodes@[i] == old(self).nodes@[i],
            final(self).nodes@[elem as int].content == content,
            final(self).nodes@[elem as int].children == children,
            final(self).nodes@[elem as int].dirty_flag == dirty_flag,
            final(self).nodes@[elem as int].rank == min_rank,
            final(self).nodes@[elem as int].bounding_box is None,
            final(self).nodes@[elem as int].cleanup_subs@ == Seq::<
                ReactiveSubscriptionId,
            >::empty(),
            final(self).nodes@[elem as int].alive,
            final(self).flags@ == old(self).flags@.update(dirty_flag as int, true),
            final(self).bindings@ == old(self).bindings@,
    {
        self.flags[dirty_flag] = true;
        let elem = self.nodes.len();
        let node = ElementNode {
            content,
            children,
            rank: min_rank,
            dirty_flag,
            bounding_box: None,
            cleanup_subs: Vec::new(),
            alive: true,
        };
        self.nodes.push(node);
        elem
    }

    /// Attaches `child` under `parent`, as deferred creation does after a
    /// data event; the child's rank must leave room under the parent's.
    pub fn attach_child(&mut self, parent: usize, child: usize)
        requires
            old(self).wf(),
            parent < old(self).nodes@.len(),
            child < old(self).nodes@.len(),
            old(self).nodes@[child as int].rank < old(self).nodes@[parent as int].rank,
        ensures
            final(self).wf(),
            final(self).nodes@ == old(self).nodes@.update(
                parent as int,
                ElementNode {
                    children: final(self).nodes@[parent as int].children,
                    ..old(self).nodes@[parent as int]
                },
            ),
            final(self).nodes@[parent as int].children@ == old(self).nodes@[
                parent as int].children@.push(child),
            final(self).flags@ == old(self).flags@,
            final(self).bindings@ == old(self).bindings@,
    {
        let node = &mut self.nodes[parent];
        node.children.push(child);
        proof {
            assert(final(node).children@ == old(self).nodes@[parent as int].children@.push(child));
        }
    }

    /// Rewrites the element's visual content through `f` and sets the
    /// shared dirty flag — unconditionally, even when `f` returns the
    /// content unchanged: invalidation is conservative.
    pub fn mutate<F: FnOnce(ElementContent) -> ElementContent>(&mut self, elem: usize, f: F)
        requires
            old(self).wf(),
            elem < old(self).nodes@.len(),
            call_requires(f, (old(self).nodes@[elem as int].content,)),
        ensures
            final(self).wf(),
            call_ensures(
                f,
                (old(self).nodes@[elem as int].content,),
                final(self).nodes@[elem as int].content,
            ),
            final(self).nodes@ == old(self).nodes@.update(
                elem as int,
                ElementNode {
                    content: final(self).nodes@[elem as int].content,
                    ..old(self).nodes@[elem as int]
                },
            ),
            final(self).flags@ == old(self).flags@.update(
                old(self).nodes@[elem as int].dirty_flag as int,
                true,
            ),
            final(self).bindings@ == old(self).bindings@,
    {
        let node = &mut self.nodes[elem];
        let mut content = ElementContent {
            position: Position::origin(),
            dimensions: Dimensions { width: Size::Fixed(0), height: Size::Fixed(0) },
            style: Style::plain(),
            text_node: None,
        };
        core::mem::swap(&mut node.content, &mut content);
        let new_content = f(content);
        node.content = new_content;
        let flag = node.dirty_flag;
        self.flags[flag] = true;
    }

    /// Binds `elem` to a reactive cell. The element's visual properties
    /// become a function of the cell, re-evaluated on every change, and
    /// that holds from the start: the element's dirty flag is set at bind
    /// time, so the driver evaluates it once against the cell's current
    /// value before the first change arrives. A change subscription is
    /// registered on the cell, recorded so deliveries to it mark the
    /// element dirty, and remembered on the element for cleanup.
    pub fn subscribe_mutation_to_reactive<T>(
        &mut self,
        elem: usize,
        store: &mut ReactiveStore<T>,
        cell: &Reactive<T>,
    ) -> (id: ReactiveSubscriptionId)
        requires
            old(self).wf(),
            elem < old(self).nodes@.len(),
            old(store).wf(),
            cell.live(&*old(store)),
            old(store)@.sub_ctr < usize::MAX,
        ensures
            final(self).wf(),
            final(store).wf(),
            id == old(store)@.sub_ctr,
            final(store)@.cells[cell.id()].subs == old(store)@.cells[cell.id()].subs.push(id),
            final(self).bindings@ == old(self).bindings@.push(
                Binding { subscription: id, element: elem },
            ),
            final(self).nodes@ == old(self).nodes@.update(
                elem as int,
                ElementNode {
                    cleanup_subs: final(self).nodes@[elem as int].cleanup_subs,
                    ..old(self).nodes@[elem as int]
                },
            ),
            final(self).nodes@[elem as int].cleanup_subs@ == old(self).nodes@[
                elem as int].cleanup_subs@.push(id),
            final(self).flags@ == old(self).flags@.update(
                old(self).nodes@[elem as int].dirty_flag as int,
                true,
            ),
    {
        let id = cell.subscribe(store);
        self.bindings.push(Binding { subscription: id, element: elem });
        let node = &mut self.nodes[elem];
        node.cleanup_subs.push(id);
        let flag = node.dirty_flag;
        self.flags[flag] = true;
        id
    }

    /// Computes the layout of the subtree under `elem`: the draw commands
    /// for every visible, self-rendering element, and the absolute
    /// bounding box of every visible element, both in depth-first order.
    /// An invisible element contributes nothing and its subtree is not
    /// entered. This is the pure pass; [`Ui::publish_boxes`] stores the
    /// boxes for hit-testing.
    #[verifier::loop_isolation(false)]
    pub fn render(
        &self,
        elem: usize,
        origin: ComputedPosition,
        parent_dims: &ComputedDimensions,
    ) -> (r: (Vec<DrawCommand>, Vec<(usize, ComputedBoundingBox)>))
        requires
            self.wf(),
            elem < self.nodes@.len(),
        ensures
            ({
                let s = spec_render(
                    self.nodes@,
                    elem as int,
                    origin.x as int,
                    origin.y as int,
                    parent_dims.width as int,
                    parent_dims.height as int,
                    (self.nodes@[elem as int].rank + 1) as nat,
                );
                r.0@ == s.0 && r.1@ == s.1
            }),
        decreases self.nodes@[elem as int].rank, 1int, 0int,
    {
        let node = &self.nodes[elem];
        if !node.content.style.visible {
            return (Vec::new(), Vec::new());
        }
        let w = node.content.dimensions.width.to_size(parent_dims.width);
        let h = node.content.dimensions.height.to_size(parent_dims.height);
        let rel = node.content.position.compute(parent_dims);
        let px = clamp_i128(origin.x as i128 + rel.x as i128);
        let py = clamp_i128(origin.y as i128 + rel.y as i128);
        let brx = clamp_i128(px as i128 + w as i128);
        let bry = clamp_i128(py as i128 + h as i128);
        let bb = ComputedBoundingBox {
            top_left: ComputedPosition { x: px, y: py },
            bottom_right: ComputedPosition { x: brx, y: bry },
        };
        let mut cmds: Vec<DrawCommand> = Vec::new();
        if node.content.style.render_self {
            cmds.push(
                DrawCommand { element: elem, x: px, y: py, width: w, height: h, style: node.content.style },
            );
        }
        let mut boxes: Vec<(usize, ComputedBoundingBox)> = Vec::new();
        boxes.push((elem, bb));

        let child_origin = ComputedPosition { x: px, y: py };
        let child_dims = ComputedDimensions { width: w, height: h };
        let n = node.children.len();
        let ghost fuel = (self.nodes@[elem as int].rank + 1) as nat;
        let ghost own_cmds = cmds@;
        let ghost own_boxes = boxes@;
        for k in 0..n
            invariant
                self.wf(),
                elem < self.nodes@.len(),
                n == self.nodes@[elem as int].children@.len(),
                self.nodes@[elem as int].content.style.visible,
                fuel == (self.nodes@[elem as int].rank + 1) as nat,
                child_origin.x as int == px as int && child_origin.y as int == py as int,
                child_dims.width as int == w as int && child_dims.height as int == h as int,
                cmds@ == own_cmds + spec_render_children(
                    self.nodes@,
                    self.nodes@[elem as int].children@,
                    0,
                    k as int,
                    px as int,
                    py as int,
                    w as int,
                    h as int,
                    (fuel - 1) as nat,
                ).0,
                boxes@ == own_boxes + spec_render_children(
                    self.nodes@,
                    self.nodes@[elem as int].children@,
                    0,
                    k as int,
                    px as int,
                    py as int,
                    w as int,
                    h as int,
                    (fuel - 1) as nat,
                ).1,
            decreases n - k,
        {
            let child = self.nodes[elem].children[k];
            let (mut ccmds, mut cboxes) = self.render(child, child_origin, &child_dims);
            cmds.append(&mut ccmds);
            boxes.append(&mut cboxes);
            proof {
                lemma_spec_render_children_snoc(
                    self.nodes@,
                    self.nodes@[elem as int].children@,
                    0,
                    k as int,
                    px as int,
                    py as int,
                    w as int,
                    h as int,
                    (fuel - 1) as nat,
                );
                lemma_spec_render_fuel(
                    self.nodes@,
                    child as int,
                    px as int,
                    py as int,
                    w as int,
                    h as int,
                    (self.nodes@[child as int].rank + 1) as nat,
                    (fuel - 1) as nat,
                );
            }
        }
        proof {
            let s = spec_render(
                self.nodes@,
                elem as int,
                origin.x as int,
                origin.y as int,
                parent_dims.width as int,
                parent_dims.height as int,
                fuel,
            );
            assert(cmds@ =~= s.0);
            assert(boxes@ =~= s.1);
        }
        (cmds, boxes)
    }

    /// Stores computed bounding boxes on their elements; everything else
    /// is untouched.
    #[verifier::loop_isolation(false)]
    pub fn publish_boxes(&mut self, boxes: &Vec<(usize, ComputedBoundingBox)>)
        requires
            old(self).wf(),
            forall|k: int| 0 <= k < boxes@.len() ==> (#[trigger] boxes@[k]).0 < old(
                self,
            ).nodes@.len(),
        ensures
            final(self).wf(),
            final(self).nodes@.len() == old(self).nodes@.len(),
            forall|i: int|
                0 <= i < final(self).nodes@.len() ==> {
                    let n0 = old(self).nodes@[i];
                    let n1 = (#[trigger] final(self).nodes@[i]);
                    n1 == (ElementNode { bounding_box: n1.bounding_box, ..n0 })
                },
            forall|k: int|
                0 <= k < boxes@.len() && (forall|k2: int|
                    k < k2 < boxes@.len() ==> (#[trigger] boxes@[k2]).0 != boxes@[k].0) ==> final(self).nodes@[(#[trigger] boxes@[k]).0 as int].bounding_box == Some(boxes@[k].1),
            final(self).flags@ == old(self).flags@,
            final(self).bindings@ == old(self).bindings@,
    {
        let n = boxes.len();
        for k in 0..n
            invariant
                n == boxes@.len(),
                self.wf(),
                self.nodes@.len() == old(self).nodes@.len(),
                forall|i: int|
                    0 <= i < self.nodes@.len() ==> {
                        let n0 = old(self).nodes@[i];
                        let n1 = (#[trigger] self.nodes@[i]);
                        n1 == (ElementNode { bounding_box: n1.bounding_box, ..n0 })
                    },
                forall|k0: int|
                    0 <= k0 < k && (forall|k2: int|
                        k0 < k2 < k ==> (#[trigger] boxes@[k2]).0 != boxes@[k0].0)
                        ==> self.nodes@[(#[trigger] boxes@[k0]).0 as int].bounding_box == Some(
                        boxes@[k0].1,
                    ),
                self.flags@ == old(self).flags@,
                self.bindings@ == old(self).bindings@,
        {
            let (elem, bb) = boxes[k];
            let node = &mut self.nodes[elem];
            node.bounding_box = Some(bb);
        }
    }

    /// Tears the subtree under `elem` down: every node in it is marked
    /// dead, and the registered reactive subscription ids of the whole
    /// subtree come back, in depth-first order, for the caller to
    /// unsubscribe from the stores they belong to.
    #[verifier::loop_isolation(false)]
    pub fn cleanup(&mut self, elem: usize) -> (r: Vec<ReactiveSubscriptionId>)
        requires
            old(self).wf(),
            elem < old(self).nodes@.len(),
        ensures
            final(self).wf(),
            r@ == spec_cleanup_ids(
                old(self).nodes@,
                elem as int,
                (old(self).nodes@[elem as int].rank + 1) as nat,
            ),
            final(self).nodes@.len() == old(self).nodes@.len(),
            forall|i: int|
                0 <= i < final(self).nodes@.len() ==> (#[trigger] final(self).nodes@[i]) == old(
                    self,
                ).nodes@[i] || final(self).nodes@[i] == (ElementNode {
                    alive: false,
                    ..old(self).nodes@[i]
                }),
            !final(self).nodes@[elem as int].alive,
            final(self).flags@ == old(self).flags@,
            final(self).bindings@ == old(self).bindings@,
        decreases old(self).nodes@[elem as int].rank, 1int, 0int,
    {
        let ghost fuel = (old(self).nodes@[elem as int].rank + 1) as nat;
        let node = &mut self.nodes[elem];
        node.alive = false;
        let mut r: Vec<ReactiveSubscriptionId> = Vec::new();
        let m = self.nodes[elem].cleanup_subs.len();
        for q in 0..m
            invariant
                self.wf(),
                elem < self.nodes@.len(),
                m == self.nodes@[elem as int].cleanup_subs@.len(),
                self.nodes@ == old(self).nodes@.update(
                    elem as int,
                    ElementNode { alive: false, ..old(self).nodes@[elem as int] },
                ),
                r@ == old(self).nodes@[elem as int].cleanup_subs@.subrange(0, q as int),
            decreases m - q,
        {
            r.push(self.nodes[elem].cleanup_subs[q]);
            proof {
                assert(r@ =~= old(self).nodes@[elem as int].cleanup_subs@.subrange(0, q + 1int));
            }
        }
        proof {
            assert(r@ =~= old(self).nodes@[elem as int].cleanup_subs@);
        }

        let ghost nodes0 = old(self).nodes@;
        proof {
            assert(r@ =~= nodes0[elem as int].cleanup_subs@ + spec_cleanup_children(
                nodes0,
                nodes0[elem as int].children@,
                0,
                0,
                (fuel - 1) as nat,
            ));
        }
        let n = self.nodes[elem].children.len();
        for k in 0..n
            invariant
                self.wf(),
                elem < self.nodes@.len(),
                n == nodes0[elem as int].children@.len(),
                self.nodes@[elem as int].children@ == nodes0[elem as int].children@,
                self.nodes@[elem as int].rank == nodes0[elem as int].rank,
                self.nodes@.len() == nodes0.len(),
                forall|i: int|
                    0 <= i < self.nodes@.len() ==> (#[trigger] self.nodes@[i]) == nodes0[i]
                        || self.nodes@[i] == (ElementNode { alive: false, ..nodes0[i] }),
                !self.nodes@[elem as int].alive,
                self.flags@ == old(self).flags@,
                self.bindings@ == old(self).bindings@,
                r@ == nodes0[elem as int].cleanup_subs@ + spec_cleanup_children(
                    nodes0,
                    nodes0[elem as int].children@,
                    0,
                    k as int,
                    (fuel - 1) as nat,
                ),
            decreases n - k,
        {
            let child = self.nodes[elem].children[k];
            let ghost pre_nodes = self.nodes@;
            let mut sub = self.cleanup(child);
            proof {
                assert(sub@ == spec_cleanup_ids(
                    pre_nodes,
                    child as int,
                    (pre_nodes[child as int].rank + 1) as nat,
                ));
                lemma_cleanup_ids_same(
                    pre_nodes,
                    nodes0,
                    child as int,
                    (pre_nodes[child as int].rank + 1) as nat,
                );
                assert(pre_nodes[child as int].rank == nodes0[child as int].rank);
                assert(nodes0[child as int].rank < nodes0[elem as int].rank);
                lemma_cleanup_fuel(
                    nodes0,
                    child as int,
                    (nodes0[child as int].rank + 1) as nat,
                    (fuel - 1) as nat,
                );
                lemma_cleanup_children_snoc(
                    nodes0,
                    nodes0[elem as int].children@,
                    0,
                    k as int,
                    (fuel - 1) as nat,
                );
            }
            r.append(&mut sub);
        }
        proof {
            assert(r@ =~= spec_cleanup_ids(nodes0, elem as int, fuel));
        }
        r
    }

    /// Whether a deferred-creation request can be fulfilled against the
    /// current arena; see [`spec_request_ok`].
    pub open spec fn request_ok(&self, req: CreateElementRequest) -> bool {
        spec_request_ok(nodes_model(self.nodes@), self.flags@.len() as int, req@)
    }

    /// Fulfils one deferred-creation request: the element is created,
    /// marked dirty and attached under its parent. A request that no
    /// longer fits the arena is dropped, and `None` comes back.
    #[verifier::loop_isolation(false)]
    pub fn fulfil_one(&mut self, req: CreateElementRequest) -> (r: Option<usize>)
        requires
            old(self).wf(),
        ensures
            final(self).wf(),
            old(self).request_ok(req) ==> {
                let elem = old(self).nodes@.len() as usize;
                &&& r == Some(elem)
                &&& final(self).nodes@.len() == old(self).nodes@.len() + 1
                &&& final(self).nodes@[elem as int].content == req.content
                &&& final(self).nodes@[elem as int].dirty_flag == req.dirty_flag
                &&& final(self).nodes@[elem as int].rank == req.rank
                &&& final(self).nodes@[req.parent as int].children@ == old(self).nodes@[
                    req.parent as int].children@.push(elem)
                &&& final(self).flags@ == old(self).flags@.update(req.dirty_flag as int, true)
            },
            !old(self).request_ok(req) ==> r is None && final(self).nodes@ == old(self).nodes@
                && final(self).flags@ == old(self).flags@,
            ({
                let step = spec_fulfil_one(
                    nodes_model(old(self).nodes@),
                    old(self).flags@,
                    req@,
                );
                nodes_model(final(self).nodes@) == step.0 && final(self).flags@ == step.1
            }),
            final(self).bindings@ == old(self).bindings@,
    {
        let ghost rm = req@;
        let parent_ok = req.parent < self.nodes.len();
        let flag_ok = req.dirty_flag < self.flags.len();
        if !(parent_ok && flag_ok && req.rank < self.nodes[req.parent].rank) {
            proof {
                assert(!old(self).request_ok(req));
            }
            return None;
        }
        let n = req.children.len();
        for k in 0..n
            invariant
                n == req.children@.len(),
                self == old(self),
                forall|q: int|
                    0 <= q < k ==> (#[trigger] req.children@[q]) < self.nodes@.len()
                        && self.nodes@[req.children@[q] as int].rank < req.rank,
        {
            if !(req.children[k] < self.nodes.len()) {
                proof {
                    assert(rm.children[k as int] == req.children@[k as int]);
                    assert(!old(self).request_ok(req));
                }
                return None;
            }
            if !(self.nodes[req.children[k]].rank < req.rank) {
                proof {
                    assert(rm.children[k as int] == req.children@[k as int]);
                    assert(nodes_model(self.nodes@)[rm.children[k as int] as int].rank
                        == self.nodes@[req.children@[k as int] as int].rank);
                    assert(!old(self).request_ok(req));
                }
                return None;
            }
        }
        proof {
            assert forall|q: int|
                0 <= q < rm.children.len() implies (#[trigger] rm.children[q]) < nodes_model(
                self.nodes@,
            ).len() && nodes_model(self.nodes@)[rm.children[q] as int].rank < rm.rank by {
                assert(req.children@[q] < self.nodes@.len());
                assert(self.nodes@[req.children@[q] as int].rank < req.rank);
            }
            assert(old(self).request_ok(req));
        }
        let parent = req.parent;
        let elem = self.new_element(req.content, req.dirty_flag, req.rank, req.children);
        self.attach_child(parent, elem);
        proof {
            let step = spec_fulfil_one(nodes_model(old(self).nodes@), old(self).flags@, rm);
            assert(nodes_model(self.nodes@) =~= step.0);
            assert(self.flags@ =~= step.1);
        }
        Some(elem)
    }

    /// Drains the deferred-creation queue in order, fulfilling each
    /// request against the arena as its predecessors left it: each
    /// fitting request creates its element, marks it dirty and attaches
    /// it under its parent; requests that no longer fit are dropped. The
    /// outcome is exactly the fold of [`spec_fulfil_one`] over the queue.
    #[verifier::loop_isolation(false)]
    pub fn fulfil_queue(&mut self, queue: &mut ElementCreationQueue)
        requires
            old(self).wf(),
        ensures
            final(self).wf(),
            final(queue)@.len() == 0,
            ({
                let folded = spec_fulfil(
                    nodes_model(old(self).nodes@),
                    old(self).flags@,
                    old(queue)@,
                );
                nodes_model(final(self).nodes@) == folded.0 && final(self).flags@ == folded.1
            }),
            final(self).bindings@ == old(self).bindings@,
    {
        loop
            invariant
                self.wf(),
                self.bindings@ == old(self).bindings@,
                spec_fulfil(nodes_model(self.nodes@), self.flags@, queue@) == spec_fulfil(
                    nodes_model(old(self).nodes@),
                    old(self).flags@,
                    old(queue)@,
                ),
            decreases queue.requests@.len(),
        {
            if queue.requests.len() == 0 {
                return ;
            }
            let ghost pre_queue = queue@;
            let req = queue.requests.remove(0);
            proof {
                assert(queue@ =~= pre_queue.drop_first());
                assert(req@ == pre_queue[0]);
            }
            let _ = self.fulfil_one(req);
        }
    }

    /// Delivers a change notification: every element bound to
    /// `subscriber` has its dirty flag set. Returns the bound elements,
    /// so the driver can re-evaluate their visual content through
    /// [`Ui::mutate`].
    #[verifier::loop_isolation(false)]
    pub fn dispatch_delivery(&mut self, subscriber: ReactiveSubscriptionId) -> (r: Vec<usize>)
        requires
            old(self).wf(),
            forall|b: int|
                0 <= b < old(self).bindings@.len() ==> (#[trigger] old(self).bindings@[b]).element
                    < old(self).nodes@.len(),
        ensures
            final(self).wf(),
            final(self).nodes@ == old(self).nodes@,
            final(self).bindings@ == old(self).bindings@,
            final(self).flags@.len() == old(self).flags@.len(),
            r@.len() <= old(self).bindings@.len(),
            forall|k: int|
                0 <= k < r@.len() ==> (#[trigger] r@[k]) < old(self).nodes@.len(),
            forall|b: int|
                0 <= b < old(self).bindings@.len() && (#[trigger] old(self).bindings@[
                b]).subscription == subscriber ==> {
                    &&& r@.contains(old(self).bindings@[b].element)
                    &&& final(self).flags@[old(self).nodes@[old(self).bindings@[
                        b].element as int].dirty_flag as int]
                },
            forall|fl: int|
                0 <= fl < old(self).flags@.len() && old(self).flags@[fl] ==> final(self).flags@[fl],
            forall|fl: int|
                0 <= fl < old(self).flags@.len() && final(self).flags@[fl] != old(self).flags@[fl]
                    ==> final(self).flags@[fl] && (exists|b: int|
                    0 <= b < old(self).bindings@.len() && (#[trigger] old(self).bindings@[
                    b]).subscription == subscriber && old(self).nodes@[old(self).bindings@[
                        b].element as int].dirty_flag == fl),
    {
        let mut hit: Vec<usize> = Vec::new();
        let n = self.bindings.len();
        for b in 0..n
            invariant
                n == self.bindings@.len(),
                self.bindings@ == old(self).bindings@,
                self.nodes@ == old(self).nodes@,
                self.flags@.len() == old(self).flags@.len(),
                self.wf(),
                hit@.len() <= b,
                forall|k: int| 0 <= k < hit@.len() ==> (#[trigger] hit@[k]) < self.nodes@.len(),
                forall|bb: int|
                    0 <= bb < b && (#[trigger] self.bindings@[bb]).subscription == subscriber
                        ==> hit@.contains(self.bindings@[bb].element)
                        && self.flags@[self.nodes@[self.bindings@[bb].element as int].dirty_flag as int],
                forall|fl: int|
                    0 <= fl < old(self).flags@.len() && old(self).flags@[fl] ==> self.flags@[fl],
                forall|fl: int|
                    0 <= fl < old(self).flags@.len() && self.flags@[fl] != old(self).flags@[fl]
                        ==> self.flags@[fl] && (exists|bb: int|
                        0 <= bb < b && (#[trigger] self.bindings@[bb]).subscription == subscriber
                            && self.nodes@[self.bindings@[
                            bb].element as int].dirty_flag == fl),
        {
            if self.bindings[b].subscription == subscriber {
                let elem = self.bindings[b].element;
                let flag = self.nodes[elem].dirty_flag;
                self.flags[flag] = true;
                let ghost prev_hit = hit@;
                hit.push(elem);
                proof {
                    assert(hit@[hit@.len() - 1] == elem);
                    assert forall|e: usize| prev_hit.contains(e) implies hit@.contains(e) by {
                        let w = choose|w: int| 0 <= w < prev_hit.len() && prev_hit[w] == e;
                        assert(hit@[w] == e);
                    }
                }
            }
        }
        hit
    }
}

} // verus!
