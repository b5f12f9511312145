//! From a Glyphs source to the shapes, features and locations of a font.

use crate::cff::PathEl;
use crate::coords;
use crate::coords::{Axis, Location, Real, Tag};
use crate::glyph;
use crate::glyphs_source;
use crate::glyphs_source::{Node, NodeType, Path, Shape};
use crate::instance::BadGlyph;
use crate::text;
use vstd::prelude::*;
use vstd::string::*;

verus! {

/// One step in drawing a contour.
#[derive(Debug, Clone, Copy, PartialEq, Eq, Structural)]
pub enum PathCommand {
    Move(Real, Real),
    Line(Real, Real),
    /// To the end of a cubic curve, by way of the points off it since.
    Curve(Real, Real),
    /// To the end of a quadratic curve, by way of the points off it since.
    QCurve(Real, Real),
    OffCurve(Real, Real),
}

/// How to draw to a node.
pub open spec fn drawn_to(node: Node) -> PathCommand {
    match node.node_type {
        NodeType::Line | NodeType::LineSmooth => PathCommand::Line(node.x, node.y),
        NodeType::Curve | NodeType::CurveSmooth => PathCommand::Curve(node.x, node.y),
        NodeType::OffCurve => PathCommand::OffCurve(node.x, node.y),
        NodeType::QCurve | NodeType::QCurveSmooth => PathCommand::QCurve(node.x, node.y),
    }
}

/// How to draw a contour that has nodes.
///
/// The first node of a closed contour is stored last, whatever kind it is: a
/// contour of nothing but off-curve points begins between its last two.
pub open spec fn drawn(closed: bool, nodes: Seq<Node>) -> Seq<PathCommand> {
    if closed {
        seq![drawn_to(nodes.last())] + nodes.drop_last().map_values(|n: Node| drawn_to(n))
    } else {
        seq![PathCommand::Move(nodes[0].x, nodes[0].y)] + nodes.skip(1).map_values(
            |n: Node| drawn_to(n),
        )
    }
}

/// Whether an open contour starts off its curve, which cannot be drawn.
pub open spec fn starts_off_curve(closed: bool, nodes: Seq<Node>) -> bool {
    !closed && nodes.len() > 0 && nodes[0].node_type == NodeType::OffCurve
}

fn draw_to(node: &Node) -> (r: PathCommand)
    ensures
        r == drawn_to(*node),
{
    match node.node_type {
        NodeType::Line => PathCommand::Line(node.x, node.y),
        NodeType::LineSmooth => PathCommand::Line(node.x, node.y),
        NodeType::Curve => PathCommand::Curve(node.x, node.y),
        NodeType::CurveSmooth => PathCommand::Curve(node.x, node.y),
        NodeType::OffCurve => PathCommand::OffCurve(node.x, node.y),
        NodeType::QCurve => PathCommand::QCurve(node.x, node.y),
        NodeType::QCurveSmooth => PathCommand::QCurve(node.x, node.y),
    }
}

fn add_to_path(commands: &mut Vec<PathCommand>, nodes: &Vec<Node>, from: usize, to: usize)
    requires
        from <= to <= nodes@.len(),
    ensures
        final(commands)@ == old(commands)@ + nodes@.subrange(from as int, to as int).map_values(
            |n: Node| drawn_to(n),
        ),
{
    let ghost start = commands@;
    let ghost all = nodes@.subrange(from as int, to as int).map_values(|n: Node| drawn_to(n));
    let mut i: usize = from;
    while i < to
        invariant
            from <= i <= to <= nodes@.len(),
            all == nodes@.subrange(from as int, to as int).map_values(|n: Node| drawn_to(n)),
            commands@ =~= start + all.take(i - from),
        decreases to - i,
    {
        assert(all[i - from] == drawn_to(nodes@[i as int]));
        commands.push(draw_to(&nodes[i]));
        i = i + 1;
    }
    assert(all.take(to - from) =~= all);
}

/// How to draw a contour, or why it cannot be drawn. One without nodes takes
/// nothing.
pub fn path_commands(path: &Path) -> (r: Result<Vec<PathCommand>, String>)
    ensures
        r is Err <==> starts_off_curve(path.closed, path.nodes@),
        match r {
            Ok(commands) => commands@ == (if path.nodes@.len() == 0 {
                seq![]
            } else {
                drawn(path.closed, path.nodes@)
            }),
            Err(why) => why@ == "Open path starts with off-curve points"@,
        },
{
    let mut commands: Vec<PathCommand> = Vec::new();
    let count: usize = path.nodes.len();
    if count == 0 {
        return Ok(commands);
    }
    if !path.closed {
        let first: Node = path.nodes[0];
        if first.node_type == NodeType::OffCurve {
            return Err("Open path starts with off-curve points".to_string());
        }
        commands.push(PathCommand::Move(first.x, first.y));
        add_to_path(&mut commands, &path.nodes, 1, count);
        assert(path.nodes@.subrange(1, count as int) =~= path.nodes@.skip(1));
        assert(commands@ =~= drawn(path.closed, path.nodes@));
    } else {
        commands.push(draw_to(&path.nodes[count - 1]));
        add_to_path(&mut commands, &path.nodes, 0, count - 1);
        assert(path.nodes@.subrange(0, count - 1) =~= path.nodes@.drop_last());
        assert(commands@ =~= drawn(path.closed, path.nodes@));
    }
    Ok(commands)
}

/// `made` is what a contour may become.
pub open spec fn path_becomes<B: Fn(&Vec<PathCommand>, bool) -> Result<Vec<PathEl>, String>>(
    build: B,
    closed: bool,
    nodes: Seq<Node>,
    erase_open_corners: bool,
    made: Result<Vec<PathEl>, String>,
) -> bool {
    if nodes.len() == 0 {
        made matches Ok(path) && path@.len() == 0
    } else if starts_off_curve(closed, nodes) {
        made matches Err(why) && why@ == "Open path starts with off-curve points"@
    } else {
        exists|commands: Vec<PathCommand>|
            commands@ == drawn(closed, nodes) && #[trigger] call_ensures(
                build,
                (&commands, erase_open_corners),
                made,
            )
    }
}

/// A contour as a path. `build` draws one, and erases open corners if it is
/// told to.
pub fn to_ir_path<B: Fn(&Vec<PathCommand>, bool) -> Result<Vec<PathEl>, String>>(
    path: &Path,
    erase_open_corners: bool,
    build: &B,
) -> (r: Result<Vec<PathEl>, String>)
    requires
        forall|commands: Vec<PathCommand>|
            call_requires(*build, (&commands, erase_open_corners)),
    ensures
        path_becomes(*build, path.closed, path.nodes@, erase_open_corners, r),
{
    let commands: Vec<PathCommand> = match path_commands(path) {
        Ok(commands) => commands,
        Err(why) => {
            return Err(why);
        },
    };
    if path.nodes.len() == 0 {
        return Ok(Vec::new());
    }
    build(&commands, erase_open_corners)
}

/// The contours among some shapes.
pub open spec fn contours_in(shapes: Seq<Shape>) -> Seq<Path>
    decreases shapes.len(),
{
    if shapes.len() == 0 {
        seq![]
    } else {
        match shapes.last() {
            Shape::Path(path) => contours_in(shapes.drop_last()).push(path),
            Shape::Component(_) => contours_in(shapes.drop_last()),
        }
    }
}

/// The components among some shapes.
pub open spec fn components_in(shapes: Seq<Shape>) -> Seq<glyph::ComponentView>
    decreases shapes.len(),
{
    if shapes.len() == 0 {
        seq![]
    } else {
        match shapes.last() {
            Shape::Path(_) => components_in(shapes.drop_last()),
            Shape::Component(c) => components_in(shapes.drop_last()).push(
                glyph::ComponentView { base: c.name@, transform: c.transform, anchor: c.anchor },
            ),
        }
    }
}

/// What some components are.
pub open spec fn component_views(components: Seq<glyph::Component>) -> Seq<glyph::ComponentView> {
    components.map_values(|c: glyph::Component| c@)
}

fn to_ir_component(component: &glyphs_source::Component) -> (r: glyph::Component)
    ensures
        r@ == (glyph::ComponentView {
            base: component.name@,
            transform: component.transform,
            anchor: component.anchor,
        }),
{
    glyph::Component {
        base: component.name.clone(),
        transform: component.transform,
        anchor: glyphs_source::copy_text(&component.anchor),
    }
}

/// The contours and the components of some shapes, each in order. The first
/// contour that cannot be drawn is reported.
pub fn to_ir_contours_and_components<
    B: Fn(&Vec<PathCommand>, bool) -> Result<Vec<PathEl>, String>,
>(glyph_name: &String, shapes: &Vec<Shape>, erase_open_corners: bool, build: &B) -> (r: Result<
    (Vec<Vec<PathEl>>, Vec<glyph::Component>),
    BadGlyph,
>)
    requires
        forall|commands: Vec<PathCommand>|
            call_requires(*build, (&commands, erase_open_corners)),
    ensures
        match r {
            Ok((contours, components)) => {
                &&& contours@.len() == contours_in(shapes@).len()
                &&& forall|i: int|
                    0 <= i < contours@.len() ==> path_becomes(
                        *build,
                        contours_in(shapes@)[i].closed,
                        contours_in(shapes@)[i].nodes@,
                        erase_open_corners,
                        Ok(#[trigger] contours@[i]),
                    )
                &&& component_views(components@) == components_in(shapes@)
            },
            Err(bad) => bad.name@ == glyph_name@ && are_undrawable(
                *build,
                shapes@,
                erase_open_corners,
                bad.cause,
            ),
        },
{
    let mut contours: Vec<Vec<PathEl>> = Vec::new();
    let mut components: Vec<glyph::Component> = Vec::new();
    let mut i: usize = 0;
    assert(component_views(components@) =~= components_in(shapes@.take(0)));
    while i < shapes.len()
        invariant
            i <= shapes@.len(),
            forall|commands: Vec<PathCommand>|
                call_requires(*build, (&commands, erase_open_corners)),
            contours@.len() == contours_in(shapes@.take(i as int)).len(),
            forall|k: int|
                0 <= k < contours@.len() ==> path_becomes(
                    *build,
                    contours_in(shapes@.take(i as int))[k].closed,
                    contours_in(shapes@.take(i as int))[k].nodes@,
                    erase_open_corners,
                    Ok(#[trigger] contours@[k]),
                ),
            component_views(components@) == components_in(shapes@.take(i as int)),
            forall|k: int|
                0 <= k < i ==> is_drawable(*build, #[trigger] shapes@[k], erase_open_corners),
        decreases shapes.len() - i,
    {
        assert(shapes@.take(i + 1).drop_last() =~= shapes@.take(i as int));
        match &shapes[i] {
            Shape::Component(component) => {
                let ghost before = components@;
                components.push(to_ir_component(component));
                assert(component_views(components@) =~= component_views(before).push(
                    components@.last()@,
                ));
            },
            Shape::Path(path) => {
                match to_ir_path(path, erase_open_corners, build) {
                    Ok(contour) => {
                        assert(is_drawable(*build, shapes@[i as int], erase_open_corners));
                        contours.push(contour);
                    },
                    Err(cause) => {
                        assert(stops_at(*build, shapes@, erase_open_corners, i as int, cause));
                        assert(are_undrawable(*build, shapes@, erase_open_corners, cause));
                        return Err(BadGlyph { name: glyph_name.clone(), cause });
                    },
                }
            },
        }
        i = i + 1;
    }
    assert(shapes@.take(i as int) =~= shapes@);
    Ok((contours, components))
}

/// One of these shapes may not be drawn, and the first such for this reason.
pub open spec fn are_undrawable<B: Fn(&Vec<PathCommand>, bool) -> Result<Vec<PathEl>, String>>(
    build: B,
    shapes: Seq<Shape>,
    erase_open_corners: bool,
    cause: String,
) -> bool {
    exists|i: int|
        0 <= i < shapes.len() && #[trigger] stops_at(build, shapes, erase_open_corners, i, cause)
}

/// Shape `i` is the first that may not be drawn, for this reason.
pub open spec fn stops_at<B: Fn(&Vec<PathCommand>, bool) -> Result<Vec<PathEl>, String>>(
    build: B,
    shapes: Seq<Shape>,
    erase_open_corners: bool,
    i: int,
    cause: String,
) -> bool {
    &&& is_undrawable(build, shapes[i], erase_open_corners, cause)
    &&& forall|k: int|
        0 <= k < i ==> is_drawable(build, #[trigger] shapes[k], erase_open_corners)
}

/// A shape is no contour, or one that may be drawn.
pub open spec fn is_drawable<B: Fn(&Vec<PathCommand>, bool) -> Result<Vec<PathEl>, String>>(
    build: B,
    shape: Shape,
    erase_open_corners: bool,
) -> bool {
    shape matches Shape::Path(path) ==> exists|contour: Vec<PathEl>| #[trigger]
        path_becomes(build, path.closed, path.nodes@, erase_open_corners, Ok(contour))
}

/// A shape is a contour that may not be drawn.
pub open spec fn is_undrawable<B: Fn(&Vec<PathCommand>, bool) -> Result<Vec<PathEl>, String>>(
    build: B,
    shape: Shape,
    erase_open_corners: bool,
    cause: String,
) -> bool {
    shape matches Shape::Path(path) && path_becomes(
        build,
        path.closed,
        path.nodes@,
        erase_open_corners,
        Err(cause),
    )
}

/// A closed contour begins with the node stored last, and goes through all of
/// its nodes once.
pub proof fn law_the_last_of_a_closed_contour_is_first(nodes: Seq<Node>, i: int)
    requires
        nodes.len() > 0,
        0 <= i < nodes.len(),
    ensures
        drawn(true, nodes).len() == nodes.len(),
        drawn(true, nodes)[(i + 1) % (nodes.len() as int)] == drawn_to(nodes[i]),
{
    let n = nodes.len() as int;
    if i == n - 1 {
        assert((i + 1) % n == 0) by (nonlinear_arith)
            requires
                i == n - 1,
                n > 0,
        ;
    } else {
        assert((i + 1) % n == i + 1) by (nonlinear_arith)
            requires
                0 <= i,
                i + 1 < n,
        ;
    }
}

/// A piece of feature code.
#[derive(Debug, Clone, PartialEq, Eq)]
pub struct FeatureSnippet {
    pub content: String,
    pub disabled: bool,
}

/// The snippets that are not disabled.
pub open spec fn enabled(features: Seq<FeatureSnippet>) -> Seq<Seq<char>>
    decreases features.len(),
{
    if features.len() == 0 {
        seq![]
    } else {
        let rest = enabled(features.drop_last());
        if features.last().disabled {
            rest
        } else {
            rest.push(features.last().content@)
        }
    }
}

/// The feature file: the snippets that are not disabled, with an empty line
/// between two of them.
pub fn to_ir_features(features: &Vec<FeatureSnippet>) -> (r: String)
    ensures
        r@ == text::joined(enabled(features@), "\n\n"@),
{
    let mut snippets: Vec<String> = Vec::new();
    let mut i: usize = 0;
    assert(text::texts(snippets@) =~= enabled(features@.take(0)));
    while i < features.len()
        invariant
            i <= features@.len(),
            text::texts(snippets@) == enabled(features@.take(i as int)),
        decreases features.len() - i,
    {
        assert(features@.take(i + 1).drop_last() =~= features@.take(i as int));
        if !features[i].disabled {
            let ghost before = snippets@;
            snippets.push(features[i].content.clone());
            assert(text::texts(snippets@) =~= text::texts(before).push(
                features@[i as int].content@,
            ));
        }
        i = i + 1;
    }
    assert(features@.take(i as int) =~= features@);
    text::join(&snippets, "\n\n")
}

/// What a list of values says of axes, as far as it goes.
pub open spec fn zipped(axes: Seq<Axis>, values: Seq<Real>) -> Seq<(Tag, Real)> {
    Seq::new(
        if axes.len() <= values.len() {
            axes.len()
        } else {
            values.len()
        },
        |i: int| (axes[i].tag, values[i]),
    )
}

/// Read a location off a list of values that is indexed by surviving axis, as
/// the coordinates of a layer between masters are.
pub fn design_location(axes: &Vec<Axis>, axes_values: &Vec<Real>) -> (r: Location)
    ensures
        r@ == coords::collected(zipped(axes@, axes_values@)),
{
    let ghost all = zipped(axes@, axes_values@);
    let mut pairs: Vec<(Tag, Real)> = Vec::new();
    let mut i: usize = 0;
    while i < axes.len() && i < axes_values.len()
        invariant
            i <= axes@.len(),
            i <= axes_values@.len(),
            all == zipped(axes@, axes_values@),
            pairs@ =~= all.take(i as int),
        decreases axes.len() - i,
    {
        pairs.push((axes[i].tag, axes_values[i]));
        i = i + 1;
    }
    assert(pairs@ =~= all);
    Location::from_pairs(&pairs)
}

/// What a list of values says of axes by the index each had in the source.
pub open spec fn picked(
    axes: Seq<Axis>,
    axis_indices: Seq<usize>,
    values: Seq<Real>,
    n: int,
) -> Seq<(Tag, Real)>
    decreases n,
{
    if n <= 0 {
        seq![]
    } else {
        let rest = picked(axes, axis_indices, values, n - 1);
        if axis_indices[n - 1] < values.len() {
            rest.push((axes[n - 1].tag, values[axis_indices[n - 1] as int]))
        } else {
            rest
        }
    }
}

/// How many axes have an index.
pub open spec fn shorter(a: nat, b: nat) -> int {
    if a <= b {
        a as int
    } else {
        b as int
    }
}

/// Read a location off the values of a master or an instance.
///
/// These are indexed by the axes the source declares, dropped ones too, so each
/// surviving axis reads the slot it had before the drop.
pub fn source_design_location(
    axes: &Vec<Axis>,
    axis_indices: &Vec<usize>,
    axes_values: &Vec<Real>,
) -> (r: Location)
    ensures
        r@ == coords::collected(
            picked(axes@, axis_indices@, axes_values@, shorter(axes@.len(), axis_indices@.len())),
        ),
{
    let mut pairs: Vec<(Tag, Real)> = Vec::new();
    let mut i: usize = 0;
    while i < axes.len() && i < axis_indices.len()
        invariant
            i <= axes@.len(),
            i <= axis_indices@.len(),
            pairs@ =~= picked(axes@, axis_indices@, axes_values@, i as int),
        decreases axes.len() - i,
    {
        if axis_indices[i] < axes_values.len() {
            pairs.push((axes[i].tag, axes_values[axis_indices[i]]));
        }
        i = i + 1;
    }
    Location::from_pairs(&pairs)
}

/// Each type of node gives a command of its own kind at the point of the node,
/// and whether it is smooth does not count.
pub proof fn law_smoothness_does_not_count(node: Node, other: Node)
    requires
        node.x == other.x,
        node.y == other.y,
    ensures
        node.node_type is Line && other.node_type is LineSmooth ==> drawn_to(node) == drawn_to(other)
            && drawn_to(node) == PathCommand::Line(node.x, node.y),
        node.node_type is Curve && other.node_type is CurveSmooth ==> drawn_to(node) == drawn_to(
            other,
        ) && drawn_to(node) == PathCommand::Curve(node.x, node.y),
        node.node_type is QCurve && other.node_type is QCurveSmooth ==> drawn_to(node) == drawn_to(
            other,
        ) && drawn_to(node) == PathCommand::QCurve(node.x, node.y),
        node.node_type is OffCurve <==> drawn_to(node) is OffCurve,
        node.node_type is OffCurve ==> drawn_to(node) == PathCommand::OffCurve(node.x, node.y),
{
}

/// A contour is drawn node by node: lines end where nodes of a line are, cubic
/// curves where nodes of a curve are, quadratic ones where those of one are,
/// smooth or not, and points off a curve stay off it. Only the node that an
/// open contour starts with is moved to instead.
pub proof fn law_contours_are_drawn_node_by_node(closed: bool, nodes: Seq<Node>, i: int)
    requires
        0 <= i < nodes.len(),
    ensures
        drawn(closed, nodes).len() == nodes.len(),
        ({
            let at = if closed {
                if i == nodes.len() - 1 {
                    0
                } else {
                    i + 1
                }
            } else {
                i
            };
            let command = drawn(closed, nodes)[at];
            let (x, y) = (nodes[i].x, nodes[i].y);
            if !closed && i == 0 {
                command == PathCommand::Move(x, y)
            } else {
                match nodes[i].node_type {
                    NodeType::Line => command == PathCommand::Line(x, y),
                    NodeType::LineSmooth => command == PathCommand::Line(x, y),
                    NodeType::Curve => command == PathCommand::Curve(x, y),
                    NodeType::CurveSmooth => command == PathCommand::Curve(x, y),
                    NodeType::QCurve => command == PathCommand::QCurve(x, y),
                    NodeType::QCurveSmooth => command == PathCommand::QCurve(x, y),
                    NodeType::OffCurve => command == PathCommand::OffCurve(x, y),
                }
            }
        }),
{
}

/// Only an open contour that starts off its curve is refused outright, one
/// without nodes is empty, and every other is left to what draws it.
pub proof fn law_only_open_contours_can_start_off_curve<
    B: Fn(&Vec<PathCommand>, bool) -> Result<Vec<PathEl>, String>,
>(
    build: B,
    closed: bool,
    nodes: Seq<Node>,
    erase_open_corners: bool,
    made: Result<Vec<PathEl>, String>,
)
    requires
        path_becomes(build, closed, nodes, erase_open_corners, made),
    ensures
        nodes.len() == 0 ==> (made matches Ok(path) && path@.len() == 0),
        nodes.len() > 0 && !closed && nodes[0].node_type is OffCurve ==> (made matches Err(why)
            && why@ == "Open path starts with off-curve points"@),
        nodes.len() > 0 && (closed || !(nodes[0].node_type is OffCurve)) ==> exists|
            commands: Vec<PathCommand>,
        | #[trigger]
            call_ensures(build, (&commands, erase_open_corners), made) && commands@ == drawn(
                closed,
                nodes,
            ),
{
}

/// Every shape is either a contour or a component, and is found among its own
/// kind behind all that come before it: a component with the name, the
/// transform and the anchor that it has in the source.
pub proof fn law_shapes_are_sorted_by_kind(shapes: Seq<Shape>, shape: Shape)
    ensures
        contours_in(Seq::empty()).len() == 0,
        components_in(Seq::empty()).len() == 0,
        shape matches Shape::Path(path) ==> {
            &&& contours_in(shapes.push(shape)) == contours_in(shapes).push(path)
            &&& components_in(shapes.push(shape)) == components_in(shapes)
        },
        shape matches Shape::Component(c) ==> {
            let found = components_in(shapes.push(shape));
            &&& contours_in(shapes.push(shape)) == contours_in(shapes)
            &&& found.len() == components_in(shapes).len() + 1
            &&& found.drop_last() == components_in(shapes)
            &&& found.last().base == c.name@
            &&& found.last().transform == c.transform
            &&& found.last().anchor == c.anchor
        },
        contours_in(shapes).len() + components_in(shapes).len() == shapes.len(),
    decreases shapes.len(),
{
    assert(shapes.push(shape).drop_last() =~= shapes);
    if shape is Component {
        assert(components_in(shapes.push(shape)).drop_last() =~= components_in(shapes));
    }
    if shapes.len() > 0 {
        law_shapes_are_sorted_by_kind(shapes.drop_last(), shapes.last());
    }
}

/// A snippet adds its content to the feature file unless it is disabled.
pub proof fn law_only_disabled_snippets_are_left_out(
    features: Seq<FeatureSnippet>,
    snippet: FeatureSnippet,
)
    ensures
        enabled(Seq::empty()).len() == 0,
        snippet.disabled ==> enabled(features.push(snippet)) == enabled(features),
        !snippet.disabled ==> enabled(features.push(snippet)) == enabled(features).push(
            snippet.content@,
        ),
        !snippet.disabled && enabled(features).len() > 0 ==> text::joined(
            enabled(features.push(snippet)),
            "\n\n"@,
        ) == text::joined(enabled(features), "\n\n"@) + "\n\n"@ + snippet.content@,
        !snippet.disabled && enabled(features).len() == 0 ==> text::joined(
            enabled(features.push(snippet)),
            "\n\n"@,
        ) == snippet.content@,
{
    assert(features.push(snippet).drop_last() =~= features);
    if !snippet.disabled {
        assert(enabled(features).push(snippet.content@).drop_last() =~= enabled(features));
    }
}

/// A location that is read off a list of values is, on each axis that has one,
/// at the value with the index of the axis, and on no other axis.
pub proof fn law_values_are_read_by_axis(axes: Seq<Axis>, values: Seq<Real>, i: int)
    requires
        0 <= i < axes.len(),
        forall|a: int, b: int| 0 <= a < b < axes.len() ==> axes[a].tag != axes[b].tag,
    ensures
        coords::collected(zipped(axes, values)).contains_key(axes[i].tag) <==> i < values.len(),
        i < values.len() ==> coords::collected(zipped(axes, values))[axes[i].tag] == values[i],
{
    let pairs = zipped(axes, values);
    coords::law_the_last_pair_for_an_axis_counts(pairs, i);
    if i < values.len() {
        assert(pairs[i] == (axes[i].tag, values[i]));
    } else if coords::collected(pairs).contains_key(axes[i].tag) {
        let k = choose|k: int| 0 <= k < pairs.len() && (#[trigger] pairs[k]).0 == axes[i].tag;
        assert(axes[k].tag == axes[i].tag);
    }
}

proof fn lemma_picked_are_by_index(
    axes: Seq<Axis>,
    axis_indices: Seq<usize>,
    values: Seq<Real>,
    n: int,
)
    requires
        0 <= n <= axes.len(),
        n <= axis_indices.len(),
        forall|a: int, b: int| 0 <= a < b < axes.len() ==> axes[a].tag != axes[b].tag,
    ensures
        forall|i: int|
            0 <= i < n && axis_indices[i] < values.len() ==> coords::collected(
                picked(axes, axis_indices, values, n),
            ).contains_key((#[trigger] axes[i]).tag) && coords::collected(
                picked(axes, axis_indices, values, n),
            )[axes[i].tag] == values[axis_indices[i] as int],
        forall|t: Tag| #[trigger]
            coords::collected(picked(axes, axis_indices, values, n)).contains_key(t) ==> exists|
                i: int,
            |
                0 <= i < n && axis_indices[i] < values.len() && (#[trigger] axes[i]).tag == t,
    decreases n,
{
    if n > 0 {
        lemma_picked_are_by_index(axes, axis_indices, values, n - 1);
        let rest = picked(axes, axis_indices, values, n - 1);
        let all = picked(axes, axis_indices, values, n);
        if axis_indices[n - 1] < values.len() {
            assert(all.drop_last() =~= rest);
            assert(all.last() == (axes[n - 1].tag, values[axis_indices[n - 1] as int]));
        }
        assert forall|t: Tag| #[trigger] coords::collected(all).contains_key(t) implies exists|
            i: int,
        |
            0 <= i < n && axis_indices[i] < values.len() && (#[trigger] axes[i]).tag == t by {
            if coords::collected(rest).contains_key(t) {
                let i = choose|i: int|
                    0 <= i < n - 1 && axis_indices[i] < values.len() && (#[trigger] axes[i]).tag
                        == t;
                assert(axes[i].tag == t);
            } else {
                assert(axes[n - 1].tag == t);
            }
        }
    }
}

/// A master is, on each axis of the font, where its values say by the index
/// that the axis had in the source, and on no other axis.
pub proof fn law_masters_are_read_by_the_index_in_the_source(
    axes: Seq<Axis>,
    axis_indices: Seq<usize>,
    values: Seq<Real>,
    i: int,
)
    requires
        axes.len() == axis_indices.len(),
        0 <= i < axes.len(),
        forall|a: int, b: int| 0 <= a < b < axes.len() ==> axes[a].tag != axes[b].tag,
    ensures
        ({
            let at = coords::collected(
                picked(axes, axis_indices, values, shorter(axes.len(), axis_indices.len())),
            );
            &&& at.contains_key(axes[i].tag) <==> axis_indices[i] < values.len()
            &&& axis_indices[i] < values.len() ==> at[axes[i].tag]
                == values[axis_indices[i] as int]
        }),
{
    let n = shorter(axes.len(), axis_indices.len());
    lemma_picked_are_by_index(axes, axis_indices, values, n);
    let at = coords::collected(picked(axes, axis_indices, values, n));
    if at.contains_key(axes[i].tag) {
        let k = choose|k: int|
            0 <= k < n && axis_indices[k] < values.len() && (#[trigger] axes[k]).tag == axes[i].tag;
        assert(k == i) by {
            if k < i {
                assert(axes[k].tag != axes[i].tag);
            } else if i < k {
                assert(axes[i].tag != axes[k].tag);
            }
        }
    }
}

/// Drawing stops at the first contour that cannot be drawn, with the reason for
/// that; components are no reason to stop.
pub proof fn law_drawing_stops_at_the_first_bad_contour<
    B: Fn(&Vec<PathCommand>, bool) -> Result<Vec<PathEl>, String>,
>(
    build: B,
    shapes: Seq<Shape>,
    erase_open_corners: bool,
    i: int,
    cause: String,
    k: int,
)
    requires
        stops_at(build, shapes, erase_open_corners, i, cause),
    ensures
        shapes[i] matches Shape::Path(path) && path_becomes(
            build,
            path.closed,
            path.nodes@,
            erase_open_corners,
            Err(cause),
        ),
        0 <= k < i && shapes[k] is Path ==> exists|contour: Vec<PathEl>| #[trigger]
            path_becomes(
                build,
                shapes[k]->Path_0.closed,
                shapes[k]->Path_0.nodes@,
                erase_open_corners,
                Ok(contour),
            ),
{
    if 0 <= k < i {
        assert(is_drawable(build, shapes[k], erase_open_corners));
    }
}

/// The shorter of two lengths is one of them, and no longer than either.
pub proof fn law_the_shorter_of_two(a: nat, b: nat)
    ensures
        shorter(a, b) <= a,
        shorter(a, b) <= b,
        shorter(a, b) == a || shorter(a, b) == b,
{
}

} // verus!
