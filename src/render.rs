//! Which draw calls a frame issues for the entities that carry a mesh: the
//! decisions of the renderer, apart from the drawing itself.

use vstd::prelude::*;

verus! {

/// The kind of one drawing order of a mesh; `LineTo` names the entity that
/// the line goes to.
#[derive(Clone, Copy, PartialEq, Eq, Hash, Debug, Structural)]
pub enum OrderKind {
    StrokeCircle,
    Circle,
    Rect,
    LineTo(usize),
    Line,
    AbsoluteLine,
}

pub struct MeshRender {
    pub hide: bool,
    pub orders: Vec<OrderKind>,
}

/// An entity of the scene: whether it has a position, and its mesh if any.
pub struct RenderEntity {
    pub has_transform: bool,
    pub mesh: Option<MeshRender>,
}

/// Draw order `order` of entity `entity`.
#[derive(Clone, Copy, PartialEq, Eq, Hash, Debug, Structural)]
pub struct DrawCall {
    pub entity: usize,
    pub order: usize,
}

pub struct MeshRenderer;

/// Entity `i` is positioned, so lines can be drawn to it.
pub open spec fn positioned(es: Seq<RenderEntity>, i: int) -> bool {
    0 <= i < es.len() && es[i].has_transform
}

/// An order is drawn unless it is a line to an entity without position.
pub open spec fn order_drawn(es: Seq<RenderEntity>, k: OrderKind) -> bool {
    match k {
        OrderKind::LineTo(target) => positioned(es, target as int),
        _ => true,
    }
}

/// The draw calls for the orders `os` of entity `e`, in order.
pub open spec fn order_calls(es: Seq<RenderEntity>, e: int, os: Seq<OrderKind>) -> Seq<DrawCall>
    decreases os.len(),
{
    if os.len() == 0 {
        Seq::empty()
    } else {
        let p = order_calls(es, e, os.drop_last());
        if order_drawn(es, os.last()) {
            p.push(DrawCall { entity: e as usize, order: (os.len() - 1) as usize })
        } else {
            p
        }
    }
}

/// The entity is drawn: it has a position and a mesh that is not hidden.
pub open spec fn entity_drawn(x: RenderEntity) -> bool {
    x.has_transform && x.mesh is Some && !x.mesh->Some_0.hide
}

/// The draw calls of the first `n` entities of `es`.
pub open spec fn frame_calls(es: Seq<RenderEntity>, n: int) -> Seq<DrawCall>
    decreases n,
{
    if n <= 0 {
        Seq::empty()
    } else if entity_drawn(es[n - 1]) {
        frame_calls(es, n - 1) + order_calls(es, n - 1, es[n - 1].mesh->Some_0.orders@)
    } else {
        frame_calls(es, n - 1)
    }
}

impl MeshRenderer {
    /// The draw calls of a frame: for each positioned entity with a visible
    /// mesh, in entity order, each of its orders in turn, leaving out the
    /// lines to entities that have no position.
    pub fn render(entities: &Vec<RenderEntity>) -> (r: Vec<DrawCall>)
        ensures
            r@ == frame_calls(entities@, entities@.len() as int),
    {
        let mut r: Vec<DrawCall> = Vec::new();
        let mut e: usize = 0;
        while e < entities.len()
            invariant
                e <= entities@.len(),
                r@ == frame_calls(entities@, e as int),
            decreases entities.len() - e,
        {
            let x = &entities[e];
            if x.has_transform {
                match &x.mesh {
                    Some(mr) => {
                        if !mr.hide {
                            let ghost base = r@;
                            let mut o: usize = 0;
                            while o < mr.orders.len()
                                invariant
                                    e < entities@.len(),
                                    *mr == entities@[e as int].mesh->Some_0,
                                    o <= mr.orders@.len(),
                                    r@ == base + order_calls(entities@, e as int, mr.orders@.take(o as int)),
                                decreases mr.orders.len() - o,
                            {
                                assert(mr.orders@.take(o + 1).drop_last() =~= mr.orders@.take(o as int));
                                let drawn = match mr.orders[o] {
                                    OrderKind::LineTo(target) => target < entities.len()
                                        && entities[target].has_transform,
                                    _ => true,
                                };
                                if drawn {
                                    r.push(DrawCall { entity: e, order: o });
                                }
                                proof {
                                    assert(r@ =~= base + order_calls(entities@, e as int, mr.orders@.take(o + 1)));
                                }
                                o += 1;
                            }
                            assert(mr.orders@.take(mr.orders@.len() as int) =~= mr.orders@);
                        }
                    },
                    None => {},
                }
            }
            e += 1;
        }
        r
    }
}

} // verus!
