//! Building a scene.
//!
//! A [`Scene`] is a cursor into a [`SceneCtx`]: nodes made through it hang
//! under its parent, can be given names, and can have props that follow
//! signals.
use vstd::hash_map::StringHashMap;
use vstd::prelude::*;

use crate::consistency::{
    child_keeps_consistent, edit_keeps_consistent, empty_is_consistent, root_keeps_consistent,
};
use crate::flatten::wheelable;
use crate::layout::{LayoutStyle, Len};
use crate::node::{Node, NodeId, NodeInteract, ShapeKind, ShapeStyle};
use crate::reactive::Bind;
use crate::scalar::{one, one_s, quad, splat4, Scalar};
use crate::signal::{Cell, Color, Number, Signal, Signals};
use crate::tree::{
    child_stays_acyclic, edit_stays_acyclic, empty_is_acyclic, root_stays_acyclic, NodeTree,
    TreeView,
};

verus! {

/// A colour that follows a source.
#[derive(Copy, Clone, Debug)]
pub struct ColorBindSlot<S> {
    pub node_id: NodeId,
    pub bind: Bind<S, Color<S>>,
    /// The source's version when it was last acted on.
    pub last_version: u64,
    /// For animated colours: the value on its way, which the timeline moves.
    pub displayed: Option<Signal<Color<S>>>,
}

impl<S: Scalar> ColorBindSlot<S> {
    /// Whether everything it refers to is in a store.
    pub open spec fn valid(self, store: Seq<Cell<Color<S>>>) -> bool {
        &&& self.bind.valid(store)
        &&& self.displayed matches Some(d) ==> d.cell() < store.len()
    }
}

/// An opacity that follows a number. At zero the node is hidden.
#[derive(Copy, Clone, Debug)]
pub struct OpacityBindSlot<S> {
    pub node_id: NodeId,
    pub level: Signal<Number<S>>,
}

/// Every prop that follows a source.
#[derive(Debug)]
pub struct BindRegistry<S> {
    pub color: Vec<ColorBindSlot<S>>,
    pub opacity: Vec<OpacityBindSlot<S>>,
}

/// A scene: its nodes, their names, the values they show and follow.
pub struct SceneCtx<S> {
    pub tree: NodeTree<S>,
    pub names: StringHashMap<NodeId>,
    pub binds: BindRegistry<S>,
    pub signals: Signals<S>,
}

/// Whether every bound colour refers to cells of a store.
pub open spec fn binds_valid<S: Scalar>(
    binds: Seq<ColorBindSlot<S>>,
    store: Seq<Cell<Color<S>>>,
) -> bool {
    forall|i: int| 0 <= i < binds.len() ==> (#[trigger] binds[i]).valid(store)
}

/// Whether every bound opacity refers to a cell of a store.
pub open spec fn fades_valid<S: Scalar>(
    fades: Seq<OpacityBindSlot<S>>,
    store: Seq<Cell<Number<S>>>,
) -> bool {
    forall|i: int| 0 <= i < fades.len() ==> (#[trigger] fades[i]).level.cell() < store.len()
}

impl<S: Scalar> SceneCtx<S> {
    /// What building and running a scene keeps.
    pub open spec fn wf(self) -> bool {
        &&& self.tree@.consistent()
        &&& self.tree@.acyclic()
        &&& binds_valid(self.binds.color@, self.signals.colors@)
        &&& fades_valid(self.binds.opacity@, self.signals.numbers@)
    }

    /// The scene with another tree.
    pub open spec fn has_tree(self, before: SceneCtx<S>, t: TreeView<S>) -> bool {
        &&& self.tree@ == t
        &&& self.names == before.names
        &&& self.binds == before.binds
        &&& self.signals == before.signals
    }

    pub fn new() -> (r: Self)
        ensures
            r.tree@ == TreeView::<S>::empty(),
            r.names@ == Map::<Seq<char>, NodeId>::empty(),
            r.binds.color@.len() == 0,
            r.binds.opacity@.len() == 0,
            r.signals.flags@.len() == 0,
            r.signals.numbers@.len() == 0,
            r.signals.colors@.len() == 0,
            r.wf(),
    {
        proof {
            empty_is_acyclic::<S>();
            empty_is_consistent::<S>();
        }
        SceneCtx {
            tree: NodeTree::new(),
            names: StringHashMap::new(),
            binds: BindRegistry { color: Vec::new(), opacity: Vec::new() },
            signals: Signals::new(),
        }
    }

    /// The node that was last given a name.
    pub fn node(&self, name: &str) -> (r: Option<NodeId>)
        ensures
            r == (if self.names@.contains_key(name@) {
                Some(self.names@[name@])
            } else {
                None
            }),
    {
        match self.names.get(name) {
            Some(id) => Some(*id),
            None => None,
        }
    }
}

/// The node a scene makes for a kind.
pub open spec fn blank<S: Scalar>(glass: bool, n: Node<S>) -> bool {
    &&& n.children@.len() == 0
    &&& n == Node::plain(
        if glass {
            ShapeStyle {
                kind: ShapeKind::Glass,
                color: crate::node::white_s::<S>(8),
                ..ShapeStyle::plain()
            }
        } else {
            ShapeStyle::<S>::plain()
        },
        None,
        None,
        n.children,
    )
}

/// Whether `after` is the scene after a node is made under `parent` and named.
pub open spec fn spawned<S: Scalar>(
    before: SceneCtx<S>,
    parent: Option<NodeId>,
    name: Seq<char>,
    glass: bool,
    after: SceneCtx<S>,
) -> bool {
    let id = before.tree@.next_id();
    &&& exists|n: Node<S>|
        #![trigger blank(glass, n)]
        blank(glass, n) && match parent {
            Some(p) => before.tree@.child_added(p, n, after.tree@),
            None => after.tree@ == before.tree@.root_added(n),
        }
    &&& if name.len() == 0 {
        after.names == before.names
    } else {
        after.names@ == before.names@.insert(name, id)
    }
    &&& after.binds == before.binds
    &&& after.signals == before.signals
}

/// A place in a scene to add nodes at.
pub struct Scene<'a, S> {
    pub ctx: &'a mut SceneCtx<S>,
    pub parent: Option<NodeId>,
}

/// A node just added, to be described further.
pub struct NodeBuilderRef<'a, S> {
    pub ctx: &'a mut SceneCtx<S>,
    pub id: NodeId,
}

impl<'a, S: Scalar> Scene<'a, S> {
    /// Whether nodes can be added: the scene is sound and has room.
    pub open spec fn ready(ctx: SceneCtx<S>) -> bool {
        ctx.wf() && ctx.tree@.room()
    }

    /// Whether a new node cannot be its own parent: the parent is there
    /// already, or is not the node about to be made. Under a parent that is
    /// gone a node is stored, attached to nothing.
    pub open spec fn grounded(ctx: SceneCtx<S>, parent: Option<NodeId>) -> bool {
        parent matches Some(p) ==> ctx.tree@.node(p) is Some || p != ctx.tree@.next_id()
    }

    /// The top level of a scene.
    pub fn root(ctx: &'a mut SceneCtx<S>) -> (r: Self)
        ensures
            *r.ctx == *old(ctx),
            *final(r.ctx) == *final(ctx),
            r.parent is None,
    {
        Scene { ctx, parent: None }
    }

    pub fn ctx(&self) -> (r: &SceneCtx<S>)
        ensures
            *r == *old(self.ctx),
    {
        &*self.ctx
    }

    pub fn ctx_mut(&mut self) -> (r: &mut SceneCtx<S>)
        ensures
            *r == *old(self).ctx,
            *final(self).ctx == *final(r),
            final(self).parent == old(self).parent,
            *final(final(self).ctx) == *final(old(self).ctx),
    {
        &mut *self.ctx
    }

    /// Add a rectangle. A name of no characters is no name.
    pub fn rect(&mut self, name: String) -> (r: NodeBuilderRef<'_, S>)
        requires
            Self::ready(*old(self).ctx),
        ensures
            r.id == old(self).ctx.tree@.next_id(),
            spawned(*old(self).ctx, old(self).parent, name@, false, *r.ctx),
            Self::grounded(*old(self).ctx, old(self).parent) ==> r.ctx.wf(),
            r.ctx.tree@.node(r.id) is Some,
            *final(self).ctx == *final(r.ctx),
            final(self).parent == old(self).parent,
            *final(final(self).ctx) == *final(old(self).ctx),
    {
        self.spawn(name, false)
    }

    /// Add a pane of glass.
    pub fn glass(&mut self, name: String) -> (r: NodeBuilderRef<'_, S>)
        requires
            Self::ready(*old(self).ctx),
        ensures
            r.id == old(self).ctx.tree@.next_id(),
            spawned(*old(self).ctx, old(self).parent, name@, true, *r.ctx),
            Self::grounded(*old(self).ctx, old(self).parent) ==> r.ctx.wf(),
            r.ctx.tree@.node(r.id) is Some,
            *final(self).ctx == *final(r.ctx),
            final(self).parent == old(self).parent,
            *final(final(self).ctx) == *final(old(self).ctx),
    {
        self.spawn(name, true)
    }

    fn spawn(&mut self, name: String, glass: bool) -> (r: NodeBuilderRef<'_, S>)
        requires
            Self::ready(*old(self).ctx),
        ensures
            r.id == old(self).ctx.tree@.next_id(),
            spawned(*old(self).ctx, old(self).parent, name@, glass, *r.ctx),
            Self::grounded(*old(self).ctx, old(self).parent) ==> r.ctx.wf(),
            r.ctx.tree@.node(r.id) is Some,
            *final(self).ctx == *final(r.ctx),
            final(self).parent == old(self).parent,
            *final(final(self).ctx) == *final(old(self).ctx),
    {
        let node: Node<S> = if glass {
            Node::glass().build()
        } else {
            Node::rect().build()
        };
        let ghost n = node;
        let ghost t = self.ctx.tree@;
        assert(blank(glass, n));
        let id: NodeId = match self.parent {
            Some(p) => {
                let id: NodeId = self.ctx.tree.add_child(p, node);
                proof {
                    root_keeps_consistent(t, n);
                    assert(t.inserted(n).node(t.next_id()) is Some);
                    if p != t.next_id() {
                        child_stays_acyclic(t, p, n, self.ctx.tree@);
                        child_keeps_consistent(t, p, n, self.ctx.tree@);
                    }
                }
                id
            },
            None => {
                let id: NodeId = self.ctx.tree.add_root(node);
                proof {
                    root_stays_acyclic(t, n);
                    root_keeps_consistent(t, n);
                }
                id
            },
        };
        if !name.as_str().is_empty() {
            self.ctx.names.insert(name, id);
        }
        NodeBuilderRef { ctx: &mut *self.ctx, id }
    }
}

impl<'a, S: Scalar> NodeBuilderRef<'a, S> {
    /// Whether the node is there to be described.
    pub open spec fn open_on(ctx: SceneCtx<S>, id: NodeId) -> bool {
        ctx.wf() && ctx.tree@.node(id) is Some
    }

    /// The scene with this node changed to `n`.
    pub open spec fn touched(before: SceneCtx<S>, id: NodeId, n: Node<S>, after: SceneCtx<S>) -> bool {
        after.has_tree(before, before.tree@.with_node(id, n)) && Self::open_on(after, id)
    }

    pub fn id(&self) -> (r: NodeId)
        ensures
            r == self.id,
    {
        self.id
    }

    /// Place the node at an offset from its parent.
    pub fn pos(&mut self, x: S, y: S) -> (r: &mut Self)
        requires
            Self::open_on(*old(self).ctx, old(self).id),
        ensures
            r.id == old(self).id,
            ({
                let n = old(self).ctx.tree@.node(old(self).id)->Some_0;
                Self::touched(
                    *old(self).ctx,
                    old(self).id,
                    Node { layout: LayoutStyle { abs: Some([x, y]), ..n.layout }, ..n },
                    *r.ctx,
                )
            }),
            *final(self) == *final(r),
            *final(r.ctx) == *final(old(self).ctx),
    {
        let ghost t = self.ctx.tree@;
        if let Some(n) = self.ctx.tree.get_mut_raw(self.id) {
            n.layout.abs = Some([x, y]);
        }
        proof {
            touch_keeps_sound(t, self.id, self.ctx.tree@);
        }
        self
    }

    /// Fix the node's size in pixels.
    pub fn size(&mut self, w: S, h: S) -> (r: &mut Self)
        requires
            Self::open_on(*old(self).ctx, old(self).id),
        ensures
            r.id == old(self).id,
            ({
                let n = old(self).ctx.tree@.node(old(self).id)->Some_0;
                Self::touched(
                    *old(self).ctx,
                    old(self).id,
                    Node {
                        layout: LayoutStyle { width: Len::Px(w), height: Len::Px(h), ..n.layout },
                        ..n
                    },
                    *r.ctx,
                )
            }),
            *final(self) == *final(r),
            *final(r.ctx) == *final(old(self).ctx),
    {
        let ghost t = self.ctx.tree@;
        if let Some(n) = self.ctx.tree.get_mut_raw(self.id) {
            n.layout.width = Len::Px(w);
            n.layout.height = Len::Px(h);
        }
        proof {
            touch_keeps_sound(t, self.id, self.ctx.tree@);
        }
        self
    }

    /// Round all four corners alike.
    pub fn radius(&mut self, px: S) -> (r: &mut Self)
        requires
            Self::open_on(*old(self).ctx, old(self).id),
        ensures
            r.id == old(self).id,
            ({
                let n = old(self).ctx.tree@.node(old(self).id)->Some_0;
                Self::touched(
                    *old(self).ctx,
                    old(self).id,
                    Node { style: ShapeStyle { border_radius: quad(px), ..n.style }, ..n },
                    *r.ctx,
                )
            }),
            *final(self) == *final(r),
            *final(r.ctx) == *final(old(self).ctx),
    {
        let ghost t = self.ctx.tree@;
        if let Some(n) = self.ctx.tree.get_mut_raw(self.id) {
            n.style.border_radius = splat4(px);
        }
        proof {
            touch_keeps_sound(t, self.id, self.ctx.tree@);
        }
        self
    }

    pub fn radii(&mut self, tl: S, tr: S, bl: S, br: S) -> (r: &mut Self)
        requires
            Self::open_on(*old(self).ctx, old(self).id),
        ensures
            r.id == old(self).id,
            ({
                let n = old(self).ctx.tree@.node(old(self).id)->Some_0;
                Self::touched(
                    *old(self).ctx,
                    old(self).id,
                    Node { style: ShapeStyle { border_radius: [tl, tr, bl, br], ..n.style }, ..n },
                    *r.ctx,
                )
            }),
            *final(self) == *final(r),
            *final(r.ctx) == *final(old(self).ctx),
    {
        let ghost t = self.ctx.tree@;
        if let Some(n) = self.ctx.tree.get_mut_raw(self.id) {
            n.style.border_radius = [tl, tr, bl, br];
        }
        proof {
            touch_keeps_sound(t, self.id, self.ctx.tree@);
        }
        self
    }

    pub fn border(&mut self, width: S, color: [S; 4]) -> (r: &mut Self)
        requires
            Self::open_on(*old(self).ctx, old(self).id),
        ensures
            r.id == old(self).id,
            ({
                let n = old(self).ctx.tree@.node(old(self).id)->Some_0;
                Self::touched(
                    *old(self).ctx,
                    old(self).id,
                    Node { style: ShapeStyle { border_width: width, border_color: color, ..n.style }, ..n },
                    *r.ctx,
                )
            }),
            *final(self) == *final(r),
            *final(r.ctx) == *final(old(self).ctx),
    {
        let ghost t = self.ctx.tree@;
        if let Some(n) = self.ctx.tree.get_mut_raw(self.id) {
            n.style.border_width = width;
            n.style.border_color = color;
        }
        proof {
            touch_keeps_sound(t, self.id, self.ctx.tree@);
        }
        self
    }

    pub fn shadow(&mut self, offset: [S; 2], blur: S, color: [S; 4], opacity: S) -> (r: &mut Self)
        requires
            Self::open_on(*old(self).ctx, old(self).id),
        ensures
            r.id == old(self).id,
            ({
                let n = old(self).ctx.tree@.node(old(self).id)->Some_0;
                Self::touched(
                    *old(self).ctx,
                    old(self).id,
                    Node {
                        style: ShapeStyle {
                            shadow_offset: offset,
                            shadow_blur: blur,
                            shadow_color: color,
                            shadow_opacity: opacity,
                            ..n.style
                        },
                        ..n
                    },
                    *r.ctx,
                )
            }),
            *final(self) == *final(r),
            *final(r.ctx) == *final(old(self).ctx),
    {
        let ghost t = self.ctx.tree@;
        if let Some(n) = self.ctx.tree.get_mut_raw(self.id) {
            n.style.shadow_offset = offset;
            n.style.shadow_blur = blur;
            n.style.shadow_color = color;
            n.style.shadow_opacity = opacity;
        }
        proof {
            touch_keeps_sound(t, self.id, self.ctx.tree@);
        }
        self
    }

    pub fn opacity(&mut self, o: S) -> (r: &mut Self)
        requires
            Self::open_on(*old(self).ctx, old(self).id),
        ensures
            r.id == old(self).id,
            ({
                let n = old(self).ctx.tree@.node(old(self).id)->Some_0;
                Self::touched(
                    *old(self).ctx,
                    old(self).id,
                    Node { style: ShapeStyle { opacity: o, ..n.style }, ..n },
                    *r.ctx,
                )
            }),
            *final(self) == *final(r),
            *final(r.ctx) == *final(old(self).ctx),
    {
        let ghost t = self.ctx.tree@;
        if let Some(n) = self.ctx.tree.get_mut_raw(self.id) {
            n.style.opacity = o;
        }
        proof {
            touch_keeps_sound(t, self.id, self.ctx.tree@);
        }
        self
    }

    pub fn roughness(&mut self, px: S) -> (r: &mut Self)
        requires
            Self::open_on(*old(self).ctx, old(self).id),
        ensures
            r.id == old(self).id,
            ({
                let n = old(self).ctx.tree@.node(old(self).id)->Some_0;
                Self::touched(
                    *old(self).ctx,
                    old(self).id,
                    Node { style: ShapeStyle { roughness: px, ..n.style }, ..n },
                    *r.ctx,
                )
            }),
            *final(self) == *final(r),
            *final(r.ctx) == *final(old(self).ctx),
    {
        let ghost t = self.ctx.tree@;
        if let Some(n) = self.ctx.tree.get_mut_raw(self.id) {
            n.style.roughness = px;
        }
        proof {
            touch_keeps_sound(t, self.id, self.ctx.tree@);
        }
        self
    }

    /// Neither painted nor hit, children included.
    pub fn hidden(&mut self) -> (r: &mut Self)
        requires
            Self::open_on(*old(self).ctx, old(self).id),
        ensures
            r.id == old(self).id,
            ({
                let n = old(self).ctx.tree@.node(old(self).id)->Some_0;
                Self::touched(
                    *old(self).ctx,
                    old(self).id,
                    Node { visible: false, ..n },
                    *r.ctx,
                )
            }),
            *final(self) == *final(r),
            *final(r.ctx) == *final(old(self).ctx),
    {
        let ghost t = self.ctx.tree@;
        if let Some(n) = self.ctx.tree.get_mut_raw(self.id) {
            n.visible = false;
        }
        proof {
            touch_keeps_sound(t, self.id, self.ctx.tree@);
        }
        self
    }

    pub fn on_hover(&mut self, signal: Signal<bool>) -> (r: &mut Self)
        requires
            Self::open_on(*old(self).ctx, old(self).id),
        ensures
            r.id == old(self).id,
            ({
                let n = old(self).ctx.tree@.node(old(self).id)->Some_0;
                Self::touched(
                    *old(self).ctx,
                    old(self).id,
                    Node { interact: NodeInteract { hover: Some(signal), ..n.interact }, ..n },
                    *r.ctx,
                )
            }),
            *final(self) == *final(r),
            *final(r.ctx) == *final(old(self).ctx),
    {
        let ghost t = self.ctx.tree@;
        if let Some(n) = self.ctx.tree.get_mut_raw(self.id) {
            n.interact.hover = Some(signal);
        }
        proof {
            touch_keeps_sound(t, self.id, self.ctx.tree@);
        }
        self
    }

    pub fn on_press(&mut self, signal: Signal<bool>) -> (r: &mut Self)
        requires
            Self::open_on(*old(self).ctx, old(self).id),
        ensures
            r.id == old(self).id,
            ({
                let n = old(self).ctx.tree@.node(old(self).id)->Some_0;
                Self::touched(
                    *old(self).ctx,
                    old(self).id,
                    Node { interact: NodeInteract { pressed: Some(signal), ..n.interact }, ..n },
                    *r.ctx,
                )
            }),
            *final(self) == *final(r),
            *final(r.ctx) == *final(old(self).ctx),
    {
        let ghost t = self.ctx.tree@;
        if let Some(n) = self.ctx.tree.get_mut_raw(self.id) {
            n.interact.pressed = Some(signal);
        }
        proof {
            touch_keeps_sound(t, self.id, self.ctx.tree@);
        }
        self
    }

    pub fn on_focus(&mut self, signal: Signal<bool>) -> (r: &mut Self)
        requires
            Self::open_on(*old(self).ctx, old(self).id),
        ensures
            r.id == old(self).id,
            ({
                let n = old(self).ctx.tree@.node(old(self).id)->Some_0;
                Self::touched(
                    *old(self).ctx,
                    old(self).id,
                    Node { interact: NodeInteract { focused: Some(signal), ..n.interact }, ..n },
                    *r.ctx,
                )
            }),
            *final(self) == *final(r),
            *final(r.ctx) == *final(old(self).ctx),
    {
        let ghost t = self.ctx.tree@;
        if let Some(n) = self.ctx.tree.get_mut_raw(self.id) {
            n.interact.focused = Some(signal);
        }
        proof {
            touch_keeps_sound(t, self.id, self.ctx.tree@);
        }
        self
    }

    /// Fill with a colour, or with whatever a source holds. A source that can
    /// change is remembered; an animated one gets a value of its own to move.
    pub fn color(&mut self, bind: Bind<S, Color<S>>) -> (r: &mut Self)
        requires
            Self::open_on(*old(self).ctx, old(self).id),
            bind.valid(old(self).ctx.signals.colors@),
            bind.easing() is Some ==> old(self).ctx.signals.colors@.len() < u32::MAX,
        ensures
            r.id == old(self).id,
            colored(*old(self).ctx, old(self).id, bind, *r.ctx),
            Self::open_on(*r.ctx, r.id),
            *final(self) == *final(r),
            *final(r.ctx) == *final(old(self).ctx),
    {
        let ghost t = self.ctx.tree@;
        let initial: Color<S> = bind.read(&self.ctx.signals.colors);
        let initial_version: u64 = bind.version(&self.ctx.signals.colors);
        if let Some(n) = self.ctx.tree.get_mut_raw(self.id) {
            n.style.color = initial.rgba;
        }
        proof {
            touch_keeps_sound(t, self.id, self.ctx.tree@);
        }
        if bind.is_reactive() {
            let displayed: Option<Signal<Color<S>>> = if bind.animation().is_some() {
                Some(self.ctx.signals.colors.signal(initial))
            } else {
                None
            };
            self.ctx.binds.color.push(
                ColorBindSlot {
                    node_id: self.id,
                    bind,
                    last_version: initial_version,
                    displayed,
                },
            );
            assert(self.ctx.binds.color@.drop_last() =~= old(self).ctx.binds.color@);
        }
        self
    }

    /// Fill with an opaque colour.
    pub fn rgb(&mut self, red: S, green: S, blue: S) -> (r: &mut Self)
        requires
            Self::open_on(*old(self).ctx, old(self).id),
        ensures
            r.id == old(self).id,
            ({
                let n = old(self).ctx.tree@.node(old(self).id)->Some_0;
                Self::touched(
                    *old(self).ctx,
                    old(self).id,
                    Node {
                        style: ShapeStyle { color: [red, green, blue, one_s()], ..n.style },
                        ..n
                    },
                    *r.ctx,
                )
            }),
            *final(self) == *final(r),
            *final(r.ctx) == *final(old(self).ctx),
    {
        self.color(Bind::Value(Color { rgba: [red, green, blue, one()] }))
    }

    /// Fill with a colour.
    pub fn rgba(&mut self, red: S, green: S, blue: S, alpha: S) -> (r: &mut Self)
        requires
            Self::open_on(*old(self).ctx, old(self).id),
        ensures
            r.id == old(self).id,
            ({
                let n = old(self).ctx.tree@.node(old(self).id)->Some_0;
                Self::touched(
                    *old(self).ctx,
                    old(self).id,
                    Node {
                        style: ShapeStyle { color: [red, green, blue, alpha], ..n.style },
                        ..n
                    },
                    *r.ctx,
                )
            }),
            *final(self) == *final(r),
            *final(r.ctx) == *final(old(self).ctx),
    {
        self.color(Bind::Value(Color { rgba: [red, green, blue, alpha] }))
    }

    /// Open this node for children.
    pub fn child(&mut self) -> (r: Scene<'_, S>)
        ensures
            *r.ctx == *old(self).ctx,
            r.parent == Some(old(self).id),
            *final(self).ctx == *final(r.ctx),
            final(self).id == old(self).id,
            *final(final(self).ctx) == *final(old(self).ctx),
    {
        Scene { ctx: &mut *self.ctx, parent: Some(self.id) }
    }
}

/// Whether `after` is the scene after a node's colour is bound.
pub open spec fn colored<S: Scalar>(
    before: SceneCtx<S>,
    id: NodeId,
    bind: Bind<S, Color<S>>,
    after: SceneCtx<S>,
) -> bool {
    let store = before.signals.colors@;
    let initial = bind.current(store);
    let n = before.tree@.node(id)->Some_0;
    &&& after.tree@ == before.tree@.with_node(
        id,
        Node { style: ShapeStyle { color: initial.rgba, ..n.style }, ..n },
    )
    &&& after.names == before.names
    &&& after.binds.opacity == before.binds.opacity
    &&& after.signals.flags == before.signals.flags
    &&& after.signals.numbers == before.signals.numbers
    &&& match bind {
        Bind::Value(_) => after.binds == before.binds && after.signals == before.signals,
        _ => {
            let animated = bind.easing() is Some;
            &&& after.signals.colors@ == if animated {
                store.push(Cell { value: initial, version: 0 })
            } else {
                store
            }
            &&& after.binds.color@.len() == before.binds.color@.len() + 1
            &&& after.binds.color@.drop_last() == before.binds.color@
            &&& ({
                let slot = after.binds.color@.last();
                &&& slot.node_id == id
                &&& slot.bind == bind
                &&& slot.last_version == bind.stamp(store)
                &&& slot.displayed is Some == animated
                &&& animated ==> slot.displayed->Some_0.cell() == store.len()
            })
        },
    }
}

/// Describing a node leaves the tree sound.
proof fn touch_keeps_sound<S: Scalar>(t: TreeView<S>, id: NodeId, u: TreeView<S>)
    requires
        t.consistent(),
        t.acyclic(),
        t.node(id) is Some,
        u.node(id) is Some,
        u == t.with_node(id, u.node(id)->Some_0),
        ({
            let n = t.node(id)->Some_0;
            let m = u.node(id)->Some_0;
            &&& m.children@ == n.children@
            &&& wheelable(m) == wheelable(n)
            &&& m.style.kind == n.style.kind
        }),
    ensures
        u.consistent(),
        u.acyclic(),
{
    let m = u.node(id)->Some_0;
    edit_stays_acyclic(t, id, m, 0);
    edit_keeps_consistent(t, id, m, 0);
    crate::consistency::same_nodes_stay_consistent(t.edited(id, m, 0), u);
    crate::tree::fewer_kids_stay_acyclic(t.edited(id, m, 0), u);
}

impl<S: Scalar> Default for SceneCtx<S> {
    fn default() -> (r: Self)
        ensures
            r.tree@ == TreeView::<S>::empty(),
            r.names@ == Map::<Seq<char>, NodeId>::empty(),
            r.binds.color@.len() == 0,
            r.binds.opacity@.len() == 0,
            r.signals.flags@.len() == 0,
            r.signals.numbers@.len() == 0,
            r.signals.colors@.len() == 0,
            r.wf(),
    {
        SceneCtx::new()
    }
}

} // verus!
