use vstd::prelude::*;
use crate::geometry::{Point, Ratio, all_in_bounds, shrunk_polygon, shrink_polygon};

verus! {

/// One drawing command of a path.
#[derive(Clone, Copy, Debug, PartialEq, Eq, Structural)]
pub enum PathCommand {
    MoveTo(Point),
    LineTo(Point),
    Close,
}

/// A compound path: drawing commands in order.
#[derive(Debug)]
pub struct PathData {
    pub commands: Vec<PathCommand>,
}

/// Why a set of polygons could not be drawn.
#[derive(Clone, Copy, Debug, PartialEq, Eq, Structural)]
pub enum PathError {
    /// The polygon at this index has no vertex.
    EmptyPolygon(usize),
}

impl PathData {
    pub fn new() -> (r: PathData)
        ensures
            r.commands@ == Seq::<PathCommand>::empty(),
    {
        PathData { commands: Vec::new() }
    }

    pub fn move_to(&mut self, p: Point)
        ensures
            final(self).commands@ == old(self).commands@.push(PathCommand::MoveTo(p)),
    {
        self.commands.push(PathCommand::MoveTo(p));
    }

    pub fn line_to(&mut self, p: Point)
        ensures
            final(self).commands@ == old(self).commands@.push(PathCommand::LineTo(p)),
    {
        self.commands.push(PathCommand::LineTo(p));
    }

    pub fn close(&mut self)
        ensures
            final(self).commands@ == old(self).commands@.push(PathCommand::Close),
    {
        self.commands.push(PathCommand::Close);
    }
}

/// The outer frame: the square `[0, box_size] x [0, box_size]` as one closed subpath.
pub open spec fn frame(box_size: i64) -> Seq<PathCommand> {
    seq![
        PathCommand::MoveTo(Point { x: 0, y: 0 }),
        PathCommand::LineTo(Point { x: box_size, y: 0 }),
        PathCommand::LineTo(Point { x: box_size, y: box_size }),
        PathCommand::LineTo(Point { x: 0, y: box_size }),
        PathCommand::Close,
    ]
}

/// A closed subpath through `vertices`: a move to the first, a line to each
/// following one, then a close.
pub open spec fn subpath(vertices: Seq<Point>) -> Seq<PathCommand> {
    seq![PathCommand::MoveTo(vertices[0])] + vertices.drop_first().map_values(
        |p: Point| PathCommand::LineTo(p),
    ) + seq![PathCommand::Close]
}

/// The subpaths of all polygons, each shrunk toward its centroid, in order.
pub open spec fn polygons_path(polygons: Seq<Seq<Point>>, scale: Ratio) -> Seq<PathCommand>
    decreases polygons.len(),
{
    if polygons.len() == 0 {
        Seq::empty()
    } else {
        polygons_path(polygons.drop_last(), scale) + subpath(
            shrunk_polygon(polygons.last(), scale),
        )
    }
}

/// The whole drawing: the frame, then one shrunk subpath per polygon.
pub open spec fn drawing(box_size: i64, polygons: Seq<Seq<Point>>, scale: Ratio) -> Seq<
    PathCommand,
> {
    frame(box_size) + polygons_path(polygons, scale)
}

/// The vertex sequences of a list of polygons.
pub open spec fn polygons_view(polygons: Seq<Vec<Point>>) -> Seq<Seq<Point>> {
    polygons.map_values(|v: Vec<Point>| v@)
}

/// A path that draws the outer frame of the bounding square.
pub fn gen_base_box(box_size: i64) -> (r: PathData)
    ensures
        r.commands@ == frame(box_size),
{
    let mut data = PathData::new();
    data.move_to(Point { x: 0, y: 0 });
    data.line_to(Point { x: box_size, y: 0 });
    data.line_to(Point { x: box_size, y: box_size });
    data.line_to(Point { x: 0, y: box_size });
    data.close();
    assert(data.commands@ =~= frame(box_size));
    data
}

/// Appends a closed subpath through the vertices of a non-empty polygon.
pub fn add_polygon(data: &mut PathData, vertices: &Vec<Point>)
    requires
        vertices.len() > 0,
    ensures
        final(data).commands@ == old(data).commands@ + subpath(vertices@),
{
    let ghost start = data.commands@;
    data.move_to(vertices[0]);
    let mut i: usize = 1;
    while i < vertices.len()
        invariant
            1 <= i <= vertices.len(),
            data.commands@ == start + seq![PathCommand::MoveTo(vertices@[0])]
                + vertices@.subrange(1, i as int).map_values(|p: Point| PathCommand::LineTo(p)),
        decreases vertices.len() - i,
    {
        data.line_to(vertices[i]);
        proof {
            assert(vertices@.subrange(1, i + 1) =~= vertices@.subrange(1, i as int).push(
                vertices@[i as int],
            ));
            assert(vertices@.subrange(1, i + 1).map_values(|p: Point| PathCommand::LineTo(p))
                =~= vertices@.subrange(1, i as int).map_values(|p: Point| PathCommand::LineTo(p)).push(
                PathCommand::LineTo(vertices@[i as int]),
            ));
        }
        i = i + 1;
    }
    data.close();
    assert(vertices@.subrange(1, vertices.len() as int) =~= vertices@.drop_first());
    assert(data.commands@ =~= start + subpath(vertices@));
}

/// Draws the frame of the square `[0, box_size] x [0, box_size]`, then each
/// polygon shrunk toward its centroid by `scale` as a closed subpath, in order.
/// A polygon without vertices is rejected before anything is drawn: the error
/// names the first such polygon.
pub fn assemble_path(box_size: i64, polygons: &Vec<Vec<Point>>, scale: Ratio) -> (r: Result<
    PathData,
    PathError,
>)
    requires
        scale.wf(),
        forall|i: int| 0 <= i < polygons.len() ==> all_in_bounds(#[trigger] polygons[i]@),
    ensures
        match r {
            Ok(d) => (forall|i: int| 0 <= i < polygons.len() ==> #[trigger] polygons[i].len() > 0)
                && d.commands@ == drawing(box_size, polygons_view(polygons@), scale),
            Err(PathError::EmptyPolygon(k)) => k < polygons.len() && polygons[k as int].len() == 0
                && forall|i: int| 0 <= i < k ==> #[trigger] polygons[i].len() > 0,
        },
{
    let mut j: usize = 0;
    while j < polygons.len()
        invariant
            j <= polygons.len(),
            forall|i: int| 0 <= i < j ==> #[trigger] polygons[i].len() > 0,
        decreases polygons.len() - j,
    {
        if polygons[j].len() == 0 {
            return Err(PathError::EmptyPolygon(j));
        }
        j = j + 1;
    }
    let ghost view = polygons_view(polygons@);
    let mut data = gen_base_box(box_size);
    let mut i: usize = 0;
    while i < polygons.len()
        invariant
            i <= polygons.len(),
            scale.wf(),
            view == polygons_view(polygons@),
            forall|k: int| 0 <= k < polygons.len() ==> #[trigger] polygons[k].len() > 0,
            forall|k: int| 0 <= k < polygons.len() ==> all_in_bounds(#[trigger] polygons[k]@),
            data.commands@ == frame(box_size) + polygons_path(view.subrange(0, i as int), scale),
        decreases polygons.len() - i,
    {
        let shrunk = shrink_polygon(&polygons[i], scale);
        add_polygon(&mut data, &shrunk);
        proof {
            let pre = view.subrange(0, i as int);
            let next = view.subrange(0, i + 1);
            assert(next.drop_last() =~= pre);
            assert(next.last() == polygons[i as int]@);
            assert(data.commands@ =~= frame(box_size) + polygons_path(next, scale));
        }
        i = i + 1;
    }
    assert(view.subrange(0, polygons.len() as int) =~= view);
    Ok(data)
}

} // verus!
