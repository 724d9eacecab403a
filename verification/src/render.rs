//! Laying a geometry out on a rectangle and painting it.
//!
//! A solid geometry fills its rectangle. A split divides its rectangle
//! along one axis among its children, in order and without gaps: a child
//! of weight `w` gets `w * extent / total` pixels, rounded down, where
//! `total` is the sum of the weights. What the rounding leaves over at
//! the far end is not painted.

use crate::canvas::{area, Area, MsPaint, Surface};
use crate::geometry::{
    lemma_resolved_children, resolved_children, Axis, FlagElement, FlagGeometry, Resolved,
};
use vstd::prelude::*;

verus! {

/// Why a geometry cannot be painted.
#[derive(Copy, Clone, Debug, PartialEq, Eq, Structural)]
pub enum DrawError {
    /// Some split in the geometry has weights that sum to zero, so that
    /// its rectangle cannot be divided in proportion to them.
    ZeroWeightSplit,
}

/// The sum of the weights of the children of a split.
pub open spec fn total_weight(children: Seq<(Resolved, nat)>) -> nat
    decreases children.len(),
{
    if children.len() == 0 {
        0
    } else {
        total_weight(children.drop_last()) + children.last().1
    }
}

/// The pixels that a child of weight `weight` gets of `span` pixels, in a
/// split whose weights sum to `total`.
pub open spec fn extent(weight: nat, span: nat, total: nat) -> nat {
    (weight * span) / total
}

/// The pixels that the first `n` children of a split get of `span` pixels,
/// taken together: where the child after them starts.
pub open spec fn offset(children: Seq<(Resolved, nat)>, span: nat, n: int) -> nat
    decreases n,
{
    if n <= 0 {
        0
    } else {
        offset(children, span, n - 1) + extent(
            children[n - 1].1,
            span,
            total_weight(children),
        )
    }
}

/// The rectangle of child `i` of a split that has the rectangle `whole`.
pub open spec fn child_area(
    children: Seq<(Resolved, nat)>,
    axis: Axis,
    whole: Area,
    i: int,
) -> Area {
    let total = total_weight(children);
    match axis {
        Axis::Horizontal => area(
            whole.left + offset(children, whole.width as nat, i),
            whole.top,
            extent(children[i].1, whole.width as nat, total) as int,
            whole.height,
        ),
        Axis::Vertical => area(
            whole.left,
            whole.top + offset(children, whole.height as nat, i),
            whole.width,
            extent(children[i].1, whole.height as nat, total) as int,
        ),
    }
}

/// Whether a geometry can be painted: the weights of each of its splits,
/// at any depth, sum to more than zero.
pub open spec fn drawable(geometry: Resolved) -> bool
    decreases geometry,
{
    match geometry {
        Resolved::Solid(_) => true,
        Resolved::Split(_, children) => total_weight(children) > 0 && forall|i: int|
            0 <= i < children.len() ==> drawable(#[trigger] children[i].0),
    }
}

/// The surface after a geometry has been painted on the rectangle `whole`.
pub open spec fn paint(geometry: Resolved, whole: Area, surface: Surface) -> Surface
    decreases geometry, 0int,
{
    match geometry {
        Resolved::Solid(color) => surface.fill(whole, color.rgb()),
        Resolved::Split(axis, children) => paint_children(
            children,
            axis,
            whole,
            children.len() as int,
            surface,
        ),
    }
}

/// The surface after the first `n` children of a split have been painted,
/// one after the other, each on its own rectangle.
pub open spec fn paint_children(
    children: Seq<(Resolved, nat)>,
    axis: Axis,
    whole: Area,
    n: int,
    surface: Surface,
) -> Surface
    decreases children, n,
{
    if n <= 0 || n > children.len() {
        surface
    } else {
        paint(
            children[n - 1].0,
            child_area(children, axis, whole, n - 1),
            paint_children(children, axis, whole, n - 1, surface),
        )
    }
}

/// The first children of a split weigh no more than all of them, and one
/// more child adds its weight.
pub proof fn lemma_total_weight_prefix(children: Seq<(Resolved, nat)>, n: int)
    requires
        0 <= n <= children.len(),
    ensures
        total_weight(children.take(n)) <= total_weight(children),
        n < children.len() ==> total_weight(children.take(n + 1)) == total_weight(
            children.take(n),
        ) + children[n].1,
    decreases children.len() - n,
{
    if n == children.len() {
        assert(children.take(n) =~= children);
    } else {
        assert(children.take(n + 1).drop_last() =~= children.take(n));
        lemma_total_weight_prefix(children, n + 1);
    }
}

/// A child's pixels are no more than its share: `extent * total` does not
/// exceed `weight * span`, and falls short of it by less than `total`.
pub proof fn lemma_extent(weight: nat, span: nat, total: nat)
    requires
        total > 0,
    ensures
        extent(weight, span, total) * total <= weight * span,
        weight * span < extent(weight, span, total) * total + total,
        weight <= total ==> extent(weight, span, total) <= span,
{
    let product = weight * span;
    let share = product / total;
    assert(share * total <= product && product < share * total + total) by (nonlinear_arith)
        requires
            total > 0,
            product >= 0,
            share == product / total,
    ;
    assert(share >= 0) by (nonlinear_arith)
        requires
            total > 0,
            product >= 0,
            share == product / total,
    ;
    if weight <= total {
        assert(share <= span) by (nonlinear_arith)
            requires
                share * total <= weight * span,
                weight <= total,
                total > 0,
                span >= 0,
                share >= 0,
        ;
    }
}

/// The children of a split fit in its extent, side by side: child `n`
/// starts where the children before it end, and the first `n` children
/// take no more than `span` pixels. In the count of pixels times `total`,
/// they take no more than their weights times `span`, and fall short of
/// that by less than `total` for each child.
pub proof fn lemma_offset(children: Seq<(Resolved, nat)>, span: nat, n: int)
    requires
        0 <= n <= children.len(),
        total_weight(children) > 0,
    ensures
        offset(children, span, n) * total_weight(children) <= total_weight(children.take(n))
            * span,
        total_weight(children.take(n)) * span <= offset(children, span, n) * total_weight(
            children,
        ) + n * (total_weight(children) - 1),
        offset(children, span, n) <= span,
        n < children.len() ==> offset(children, span, n) + extent(
            children[n].1,
            span,
            total_weight(children),
        ) <= span,
    decreases n,
{
    let total = total_weight(children);
    if n == 0 {
        assert(children.take(0) =~= Seq::empty());
        assert(0 * total == 0) by (nonlinear_arith);
        assert(0 * span == 0) by (nonlinear_arith);
        assert(0 * (total - 1) == 0) by (nonlinear_arith);
    } else {
        lemma_offset(children, span, n - 1);
        lemma_total_weight_prefix(children, n - 1);
        let before = offset(children, span, n - 1);
        let weight = children[n - 1].1;
        let share = extent(weight, span, total);
        let prefix = total_weight(children.take(n - 1));
        lemma_extent(weight, span, total);
        assert((before + share) * total == before * total + share * total)
            by (nonlinear_arith);
        assert((prefix + weight) * span == prefix * span + weight * span) by (nonlinear_arith);
        assert(n * (total - 1) == (n - 1) * (total - 1) + (total - 1)) by (nonlinear_arith);
    }
    lemma_total_weight_prefix(children, n);
    let here = offset(children, span, n);
    let prefix = total_weight(children.take(n));
    assert(here <= span) by (nonlinear_arith)
        requires
            here * total <= prefix * span,
            prefix <= total,
            total > 0,
            span >= 0,
            here >= 0,
    ;
    if n < children.len() {
        let weight = children[n].1;
        let share = extent(weight, span, total);
        lemma_extent(weight, span, total);
        let next = total_weight(children.take(n + 1));
        lemma_total_weight_prefix(children, n + 1);
        assert(here + share <= span) by (nonlinear_arith)
            requires
                here * total <= prefix * span,
                share * total <= weight * span,
                prefix + weight == next,
                next <= total,
                total > 0,
                span >= 0,
                here >= 0,
                share >= 0,
        ;
    }
}

/// What a split leaves unpainted along its axis is less than one pixel for
/// each child: with `n` children, at most `n - 1` pixels.
pub proof fn lemma_leftover(children: Seq<(Resolved, nat)>, span: nat)
    requires
        total_weight(children) > 0,
    ensures
        offset(children, span, children.len() as int) <= span,
        span - offset(children, span, children.len() as int) < children.len(),
{
    let n = children.len() as int;
    let total = total_weight(children);
    let painted = offset(children, span, n);
    lemma_offset(children, span, n);
    assert(children.take(n) =~= children);
    assert(n > 0);
    assert(span - painted < n) by (nonlinear_arith)
        requires
            total * span <= painted * total + n * (total - 1),
            total > 0,
            n > 0,
    ;
}

/// The rectangle of each child of a split lies in the rectangle of the
/// split.
pub proof fn lemma_child_area(children: Seq<(Resolved, nat)>, axis: Axis, whole: Area, i: int)
    requires
        0 <= i < children.len(),
        total_weight(children) > 0,
        0 <= whole.width,
        0 <= whole.height,
    ensures
        child_area(children, axis, whole, i).within(whole),
{
    match axis {
        Axis::Horizontal => lemma_offset(children, whole.width as nat, i),
        Axis::Vertical => lemma_offset(children, whole.height as nat, i),
    }
}

/// Painting a geometry on a rectangle changes no pixel outside the
/// rectangle: what a split leaves over keeps what the canvas held.
pub proof fn lemma_paint_frame(geometry: Resolved, whole: Area, surface: Surface, x: int, y: int)
    requires
        drawable(geometry),
        0 <= whole.width,
        0 <= whole.height,
        !whole.contains(x, y),
    ensures
        paint(geometry, whole, surface).pixels.dom().contains((x, y))
            == surface.pixels.dom().contains((x, y)),
        surface.pixels.dom().contains((x, y)) ==> paint(geometry, whole, surface).pixels[(x, y)]
            == surface.pixels[(x, y)],
    decreases geometry, 0int,
{
    match geometry {
        Resolved::Solid(_) => {},
        Resolved::Split(axis, children) => {
            lemma_paint_children_frame(
                children,
                axis,
                whole,
                children.len() as int,
                surface,
                x,
                y,
            );
        },
    }
}

/// Painting the first `n` children of a split changes no pixel outside
/// the rectangle of the split.
pub proof fn lemma_paint_children_frame(
    children: Seq<(Resolved, nat)>,
    axis: Axis,
    whole: Area,
    n: int,
    surface: Surface,
    x: int,
    y: int,
)
    requires
        total_weight(children) > 0,
        forall|i: int| 0 <= i < children.len() ==> drawable(#[trigger] children[i].0),
        0 <= whole.width,
        0 <= whole.height,
        !whole.contains(x, y),
    ensures
        paint_children(children, axis, whole, n, surface).pixels.dom().contains((x, y))
            == surface.pixels.dom().contains((x, y)),
        surface.pixels.dom().contains((x, y)) ==> paint_children(
            children,
            axis,
            whole,
            n,
            surface,
        ).pixels[(x, y)] == surface.pixels[(x, y)],
    decreases children, n,
{
    if 0 < n <= children.len() {
        lemma_paint_children_frame(children, axis, whole, n - 1, surface, x, y);
        lemma_child_area(children, axis, whole, n - 1);
        assert(drawable(children[n - 1].0));
        lemma_paint_frame(
            children[n - 1].0,
            child_area(children, axis, whole, n - 1),
            paint_children(children, axis, whole, n - 1, surface),
            x,
            y,
        );
    }
}

/// Painting changes no surface's size.
pub proof fn lemma_paint_size(geometry: Resolved, whole: Area, surface: Surface)
    ensures
        paint(geometry, whole, surface).width == surface.width,
        paint(geometry, whole, surface).height == surface.height,
    decreases geometry, 0int,
{
    match geometry {
        Resolved::Solid(_) => {},
        Resolved::Split(axis, children) => {
            lemma_paint_children_size(children, axis, whole, children.len() as int, surface);
        },
    }
}

/// Painting the children of a split changes no surface's size.
pub proof fn lemma_paint_children_size(
    children: Seq<(Resolved, nat)>,
    axis: Axis,
    whole: Area,
    n: int,
    surface: Surface,
)
    ensures
        paint_children(children, axis, whole, n, surface).width == surface.width,
        paint_children(children, axis, whole, n, surface).height == surface.height,
    decreases children, n,
{
    if 0 < n <= children.len() {
        lemma_paint_children_size(children, axis, whole, n - 1, surface);
        lemma_paint_size(
            children[n - 1].0,
            child_area(children, axis, whole, n - 1),
            paint_children(children, axis, whole, n - 1, surface),
        );
    }
}

/// The sum of the weights of the children of a split.
fn sum_weights(elements: &Vec<FlagElement>) -> (total: u128)
    ensures
        total == total_weight(resolved_children(elements@)),
{
    let ghost children = resolved_children(elements@);
    proof {
        lemma_resolved_children(elements@);
    }
    let mut total: u128 = 0;
    let mut i: usize = 0;
    while i < elements.len()
        invariant
            0 <= i <= elements.len(),
            children == resolved_children(elements@),
            children.len() == elements.len(),
            total == total_weight(children.take(i as int)),
            total <= i * u32::MAX,
        decreases elements.len() - i,
    {
        proof {
            lemma_total_weight_prefix(children, i as int);
            assert(children[i as int].1 == elements[i as int].1);
            assert((i + 1) * u32::MAX == i * u32::MAX + u32::MAX) by (nonlinear_arith);
            assert(i * u32::MAX <= usize::MAX * u32::MAX) by (nonlinear_arith)
                requires
                    i <= usize::MAX,
            ;
        }
        total = total + elements[i].1 as u128;
        i = i + 1;
    }
    proof {
        assert(children.take(i as int) =~= children);
    }
    total
}

impl FlagGeometry {
    /// Tells whether the geometry can be painted: whether the weights of
    /// each split in it sum to more than zero.
    pub fn is_drawable(&self) -> (ok: bool)
        ensures
            ok == drawable(self@),
        decreases self, 0int,
    {
        match self {
            FlagGeometry::Solid(_) => true,
            FlagGeometry::Horizontal(elements) => Self::all_drawable(elements),
            FlagGeometry::Vertical(elements) => Self::all_drawable(elements),
        }
    }

    /// Tells whether a split with these children can be painted.
    fn all_drawable(elements: &Vec<FlagElement>) -> (ok: bool)
        ensures
            ok == (total_weight(resolved_children(elements@)) > 0 && forall|i: int|
                0 <= i < elements.len() ==> drawable(
                    #[trigger] resolved_children(elements@)[i].0,
                )),
        decreases elements, 1int,
    {
        let ghost children = resolved_children(elements@);
        proof {
            lemma_resolved_children(elements@);
        }
        if sum_weights(elements) == 0 {
            return false;
        }
        let mut i: usize = 0;
        while i < elements.len()
            invariant
                0 <= i <= elements.len(),
                children == resolved_children(elements@),
                children.len() == elements.len(),
                forall|k: int| 0 <= k < i ==> drawable(#[trigger] children[k].0),
            decreases elements.len() - i,
        {
            assert(children[i as int].0 == elements[i as int].0@);
            if !elements[i].0.is_drawable() {
                return false;
            }
            i = i + 1;
        }
        true
    }

    /// Paints the geometry on a rectangle of the canvas.
    pub fn draw_area<P: MsPaint>(
        &self,
        buffer: &mut P,
        left: u32,
        top: u32,
        width: u32,
        height: u32,
    )
        requires
            drawable(self@),
            left + width <= old(buffer).surface().width,
            top + height <= old(buffer).surface().height,
        ensures
            final(buffer).surface() == paint(
                self@,
                area(left as int, top as int, width as int, height as int),
                old(buffer).surface(),
            ),
            final(buffer).surface().width == old(buffer).surface().width,
            final(buffer).surface().height == old(buffer).surface().height,
        decreases self, 0int,
    {
        proof {
            lemma_paint_size(
                self@,
                area(left as int, top as int, width as int, height as int),
                buffer.surface(),
            );
        }
        match self {
            FlagGeometry::Solid(color) => {
                buffer.rectangle(left, top, width, height, color);
            },
            FlagGeometry::Horizontal(elements) => {
                Self::draw_split(elements, Axis::Horizontal, buffer, left, top, width, height);
            },
            FlagGeometry::Vertical(elements) => {
                Self::draw_split(elements, Axis::Vertical, buffer, left, top, width, height);
            },
        }
    }

    /// Paints the children of a split, each on its part of the rectangle.
    fn draw_split<P: MsPaint>(
        elements: &Vec<FlagElement>,
        axis: Axis,
        buffer: &mut P,
        left: u32,
        top: u32,
        width: u32,
        height: u32,
    )
        requires
            drawable(Resolved::Split(axis, resolved_children(elements@))),
            left + width <= old(buffer).surface().width,
            top + height <= old(buffer).surface().height,
        ensures
            final(buffer).surface() == paint(
                Resolved::Split(axis, resolved_children(elements@)),
                area(left as int, top as int, width as int, height as int),
                old(buffer).surface(),
            ),
        decreases elements, 1int,
    {
        let ghost children = resolved_children(elements@);
        let ghost whole = area(left as int, top as int, width as int, height as int);
        let ghost start = buffer.surface();
        proof {
            lemma_resolved_children(elements@);
        }
        let total = sum_weights(elements);
        let span = match axis {
            Axis::Horizontal => width,
            Axis::Vertical => height,
        };
        let mut used: u32 = 0;
        let mut i: usize = 0;
        while i < elements.len()
            invariant
                0 <= i <= elements.len(),
                children == resolved_children(elements@),
                children.len() == elements.len(),
                drawable(Resolved::Split(axis, children)),
                total == total_weight(children),
                total > 0,
                whole == area(left as int, top as int, width as int, height as int),
                span == match axis {
                    Axis::Horizontal => width,
                    Axis::Vertical => height,
                },
                used == offset(children, span as nat, i as int),
                left + width <= start.width,
                top + height <= start.height,
                buffer.surface().width == start.width,
                buffer.surface().height == start.height,
                buffer.surface() == paint_children(children, axis, whole, i as int, start),
            decreases elements.len() - i,
        {
            let weight = elements[i].1;
            proof {
                assert(children[i as int] == elements[i as int]@);
                assert(drawable(children[i as int].0));
                lemma_offset(children, span as nat, i as int);
                lemma_total_weight_prefix(children, i as int + 1);
                lemma_total_weight_prefix(children, i as int);
                lemma_extent(weight as nat, span as nat, total as nat);
                assert(weight * span <= u32::MAX * u32::MAX) by (nonlinear_arith)
                    requires
                        weight <= u32::MAX,
                        span <= u32::MAX,
                ;
            }
            let share = ((weight as u128 * span as u128) / total) as u32;
            assert(share == extent(weight as nat, span as nat, total as nat));
            match axis {
                Axis::Horizontal => {
                    elements[i].0.draw_area(buffer, left + used, top, share, height);
                },
                Axis::Vertical => {
                    elements[i].0.draw_area(buffer, left, top + used, width, share);
                },
            }
            used = used + share;
            i = i + 1;
        }
    }

    /// Paints the geometry on the whole canvas. A geometry that cannot be
    /// painted is refused, and the canvas stays as it is.
    pub fn draw<P: MsPaint>(&self, buffer: &mut P) -> (done: Result<(), DrawError>)
        ensures
            drawable(self@) ==> done is Ok && final(buffer).surface() == paint(
                self@,
                old(buffer).surface().whole(),
                old(buffer).surface(),
            ),
            !drawable(self@) ==> done == Err::<(), DrawError>(DrawError::ZeroWeightSplit)
                && final(buffer).surface() == old(buffer).surface(),
    {
        if !self.is_drawable() {
            return Err(DrawError::ZeroWeightSplit);
        }
        let width = buffer.width();
        let height = buffer.height();
        self.draw_area(buffer, 0, 0, width, height);
        Ok(())
    }
}

} // verus!
