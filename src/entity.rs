use vstd::prelude::*;

use crate::components::{Position, RenderTarget, Sprite, TimeResources, WobbleMove};

verus! {

/// The kinds of component an entity can carry, at most one value of each.
#[derive(Clone, Copy, Debug, PartialEq, Eq, Structural)]
pub enum ComponentKind {
    Time,
    Position,
    Sprite,
    RenderTarget,
    WobbleMove,
}

/// A component value tagged with its kind.
pub enum ComponentValue {
    Time(TimeResources),
    Position(Position),
    Sprite(Sprite),
    RenderTarget(RenderTarget),
    WobbleMove(WobbleMove),
}

impl ComponentValue {
    pub open spec fn kind(self) -> ComponentKind {
        match self {
            ComponentValue::Time(_) => ComponentKind::Time,
            ComponentValue::Position(_) => ComponentKind::Position,
            ComponentValue::Sprite(_) => ComponentKind::Sprite,
            ComponentValue::RenderTarget(_) => ComponentKind::RenderTarget,
            ComponentValue::WobbleMove(_) => ComponentKind::WobbleMove,
        }
    }
}

/// Error of `Entity::remove_component`: the entity carries no component of that kind.
#[derive(Clone, Copy, Debug, PartialEq, Eq, Structural)]
pub struct MissingComponent;

/// An identity owning at most one component of each kind.
#[derive(Debug)]
pub struct Entity {
    time: Option<TimeResources>,
    position: Option<Position>,
    sprite: Option<Sprite>,
    render_target: Option<RenderTarget>,
    wobble_move: Option<WobbleMove>,
}

/// A value that an entity can store. Each kind of component has its own slot; the
/// methods here reach that slot and the `Entity` methods are written over them.
pub trait Component: Sized {
    spec fn kind() -> ComponentKind;

    /// The value tagged with its kind.
    spec fn wrap(self) -> ComponentValue;

    proof fn lemma_wrap(a: Self, b: Self)
        ensures
            a.wrap().kind() == Self::kind(),
            a.wrap() == b.wrap() ==> a == b,
    ;

    fn slot_ref(e: &Entity) -> (r: Option<&Self>)
        ensures
            r.is_some() == e.slot(Self::kind()).is_some(),
            r.is_some() ==> e.slot(Self::kind()) == Some((*r.unwrap()).wrap()),
    ;

    fn slot_mut(e: &mut Entity) -> (r: Option<&mut Self>)
        ensures
            r.is_some() == old(e).slot(Self::kind()).is_some(),
            r.is_some() ==> old(e).slot(Self::kind()) == Some((*r.unwrap()).wrap()),
            r.is_some() ==> final(e).slot(Self::kind()) == Some((*final(r.unwrap())).wrap()),
            r.is_none() ==> *final(e) == *old(e),
            forall|k: ComponentKind|
                k != Self::kind() ==> #[trigger] final(e).slot(k) == old(e).slot(k),
    ;

    fn replace_slot(e: &mut Entity, v: Option<Self>) -> (r: Option<Self>)
        ensures
            r.is_some() == old(e).slot(Self::kind()).is_some(),
            r.is_some() ==> old(e).slot(Self::kind()) == Some(r.unwrap().wrap()),
            final(e).slot(Self::kind()) == (match v {
                Some(x) => Some(x.wrap()),
                None => None,
            }),
            forall|k: ComponentKind|
                k != Self::kind() ==> #[trigger] final(e).slot(k) == old(e).slot(k),
    ;
}

impl Entity {
    /// The component of kind `k` that the entity carries, if any.
    pub closed spec fn slot(self, k: ComponentKind) -> Option<ComponentValue> {
        match k {
            ComponentKind::Time => match self.time {
                Some(c) => Some(ComponentValue::Time(c)),
                None => None,
            },
            ComponentKind::Position => match self.position {
                Some(c) => Some(ComponentValue::Position(c)),
                None => None,
            },
            ComponentKind::Sprite => match self.sprite {
                Some(c) => Some(ComponentValue::Sprite(c)),
                None => None,
            },
            ComponentKind::RenderTarget => match self.render_target {
                Some(c) => Some(ComponentValue::RenderTarget(c)),
                None => None,
            },
            ComponentKind::WobbleMove => match self.wobble_move {
                Some(c) => Some(ComponentValue::WobbleMove(c)),
                None => None,
            },
        }
    }

    /// Whether the entity carries a component of kind `k`.
    pub open spec fn has(self, k: ComponentKind) -> bool {
        self.slot(k).is_some()
    }

    /// The two entities carry the same components of every kind but `k`.
    pub open spec fn same_except(self, other: Entity, k: ComponentKind) -> bool {
        forall|j: ComponentKind| j != k ==> #[trigger] self.slot(j) == other.slot(j)
    }

    /// A filled slot holds a value of the slot's own kind.
    pub proof fn lemma_slot_kind(self, k: ComponentKind)
        ensures
            self.slot(k).is_some() ==> self.slot(k).unwrap().kind() == k,
    {
    }

    /// After `add_component(v)`, the entity carries a `T`, and the `T` that
    /// `get_component` hands back is `v`.
    pub proof fn lemma_get_after_add<T: Component>(before: Entity, after: Entity, v: T, got: T)
        requires
            after.slot(T::kind()) == Some(v.wrap()),
            after.same_except(before, T::kind()),
        ensures
            after.has(T::kind()),
            after.slot(T::kind()) == Some(got.wrap()) ==> got == v,
    {
        T::lemma_wrap(got, v);
    }

    /// An entity with no components.
    pub fn new() -> (r: Entity)
        ensures
            forall|k: ComponentKind| (#[trigger] r.slot(k)).is_none(),
    {
        Entity { time: None, position: None, sprite: None, render_target: None, wobble_move: None }
    }

    /// Stores `value`, replacing any component of the same kind.
    pub fn add_component<T: Component>(&mut self, value: T)
        ensures
            final(self).slot(T::kind()) == Some(value.wrap()),
            final(self).same_except(*old(self), T::kind()),
    {
        let _ = T::replace_slot(self, Some(value));
    }

    /// The component of type `T`, if the entity carries one.
    pub fn get_component<T: Component>(&self) -> (r: Option<&T>)
        ensures
            r.is_some() == self.has(T::kind()),
            r.is_some() ==> self.slot(T::kind()) == Some((*r.unwrap()).wrap()),
    {
        T::slot_ref(self)
    }

    /// Exclusive access to the component of type `T`, if the entity carries one.
    pub fn get_component_mut<T: Component>(&mut self) -> (r: Option<&mut T>)
        ensures
            r.is_some() == old(self).has(T::kind()),
            r.is_some() ==> old(self).slot(T::kind()) == Some((*r.unwrap()).wrap()),
            r.is_some() ==> final(self).slot(T::kind()) == Some((*final(r.unwrap())).wrap()),
            final(self).same_except(*old(self), T::kind()),
            r.is_none() ==> *final(self) == *old(self),
    {
        T::slot_mut(self)
    }

    /// Whether the entity carries a component of type `T`.
    pub fn has_component<T: Component>(&self) -> (r: bool)
        ensures
            r == self.has(T::kind()),
    {
        T::slot_ref(self).is_some()
    }

    /// Detaches the component of type `T` and hands it back; fails, leaving the entity
    /// unchanged, when there is none.
    pub fn remove_component<T: Component>(&mut self) -> (r: Result<T, MissingComponent>)
        ensures
            r.is_ok() == old(self).has(T::kind()),
            r.is_ok() ==> old(self).slot(T::kind()) == Some(r->Ok_0.wrap()),
            r.is_ok() ==> !final(self).has(T::kind()),
            final(self).same_except(*old(self), T::kind()),
            r.is_err() ==> *final(self) == *old(self),
    {
        if !self.has_component::<T>() {
            return Err(MissingComponent);
        }
        match T::replace_slot(self, None) {
            Some(v) => Ok(v),
            None => Err(MissingComponent),
        }
    }
}

impl Component for TimeResources {
    open spec fn kind() -> ComponentKind {
        ComponentKind::Time
    }

    open spec fn wrap(self) -> ComponentValue {
        ComponentValue::Time(self)
    }

    proof fn lemma_wrap(a: Self, b: Self) {
    }

    fn slot_ref(e: &Entity) -> (r: Option<&Self>) {
        e.time.as_ref()
    }

    fn slot_mut(e: &mut Entity) -> (r: Option<&mut Self>) {
        e.time.as_mut()
    }

    fn replace_slot(e: &mut Entity, v: Option<Self>) -> (r: Option<Self>) {
        let r = e.time.take();
        e.time = v;
        r
    }
}

impl Component for Position {
    open spec fn kind() -> ComponentKind {
        ComponentKind::Position
    }

    open spec fn wrap(self) -> ComponentValue {
        ComponentValue::Position(self)
    }

    proof fn lemma_wrap(a: Self, b: Self) {
    }

    fn slot_ref(e: &Entity) -> (r: Option<&Self>) {
        e.position.as_ref()
    }

    fn slot_mut(e: &mut Entity) -> (r: Option<&mut Self>) {
        e.position.as_mut()
    }

    fn replace_slot(e: &mut Entity, v: Option<Self>) -> (r: Option<Self>) {
        let r = e.position.take();
        e.position = v;
        r
    }
}

impl Component for Sprite {
    open spec fn kind() -> ComponentKind {
        ComponentKind::Sprite
    }

    open spec fn wrap(self) -> ComponentValue {
        ComponentValue::Sprite(self)
    }

    proof fn lemma_wrap(a: Self, b: Self) {
    }

    fn slot_ref(e: &Entity) -> (r: Option<&Self>) {
        e.sprite.as_ref()
    }

    fn slot_mut(e: &mut Entity) -> (r: Option<&mut Self>) {
        e.sprite.as_mut()
    }

    fn replace_slot(e: &mut Entity, v: Option<Self>) -> (r: Option<Self>) {
        let r = e.sprite.take();
        e.sprite = v;
        r
    }
}

impl Component for RenderTarget {
    open spec fn kind() -> ComponentKind {
        ComponentKind::RenderTarget
    }

    open spec fn wrap(self) -> ComponentValue {
        ComponentValue::RenderTarget(self)
    }

    proof fn lemma_wrap(a: Self, b: Self) {
    }

    fn slot_ref(e: &Entity) -> (r: Option<&Self>) {
        e.render_target.as_ref()
    }

    fn slot_mut(e: &mut Entity) -> (r: Option<&mut Self>) {
        e.render_target.as_mut()
    }

    fn replace_slot(e: &mut Entity, v: Option<Self>) -> (r: Option<Self>) {
        let r = e.render_target.take();
        e.render_target = v;
        r
    }
}

impl Component for WobbleMove {
    open spec fn kind() -> ComponentKind {
        ComponentKind::WobbleMove
    }

    open spec fn wrap(self) -> ComponentValue {
        ComponentValue::WobbleMove(self)
    }

    proof fn lemma_wrap(a: Self, b: Self) {
    }

    fn slot_ref(e: &Entity) -> (r: Option<&Self>) {
        e.wobble_move.as_ref()
    }

    fn slot_mut(e: &mut Entity) -> (r: Option<&mut Self>) {
        e.wobble_move.as_mut()
    }

    fn replace_slot(e: &mut Entity, v: Option<Self>) -> (r: Option<Self>) {
        let r = e.wobble_move.take();
        e.wobble_move = v;
        r
    }
}

} // verus!
