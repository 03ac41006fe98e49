use vstd::prelude::*;

use crate::entity::{Component, ComponentKind, Entity};

verus! {

/// Entity `i` is the first in `s` that carries a component of kind `k`.
pub open spec fn is_first_with(s: Seq<Entity>, k: ComponentKind, i: int) -> bool {
    &&& 0 <= i < s.len()
    &&& s[i].has(k)
    &&& forall|j: int| 0 <= j < i ==> !#[trigger] s[j].has(k)
}

/// Some entity of `s` carries a component of kind `k`.
pub open spec fn any_with(s: Seq<Entity>, k: ComponentKind) -> bool {
    exists|i: int| 0 <= i < s.len() && #[trigger] s[i].has(k)
}

/// The index of the first entity of `s` that carries a component of kind `k`.
pub open spec fn first_with(s: Seq<Entity>, k: ComponentKind) -> int {
    choose|i: int| is_first_with(s, k, i)
}

/// At most one index is the first match.
pub proof fn lemma_first_with_unique(s: Seq<Entity>, k: ComponentKind, i: int)
    requires
        is_first_with(s, k, i),
    ensures
        first_with(s, k) == i,
        any_with(s, k),
{
    let j = first_with(s, k);
    assert(is_first_with(s, k, j));
    if j < i {
        assert(!s[j].has(k));
    } else if i < j {
        assert(!s[i].has(k));
    }
}

/// Where some entity carries kind `k`, a first one does.
pub proof fn lemma_first_exists(s: Seq<Entity>, k: ComponentKind, n: int)
    requires
        0 <= n <= s.len(),
        exists|i: int| 0 <= i < n && #[trigger] s[i].has(k),
    ensures
        exists|i: int| is_first_with(s, k, i),
        is_first_with(s, k, first_with(s, k)),
    decreases n,
{
    if exists|i: int| 0 <= i < n - 1 && #[trigger] s[i].has(k) {
        lemma_first_exists(s, k, n - 1);
    } else {
        assert(is_first_with(s, k, n - 1));
    }
}

/// The first match stays where it is when no entity gains or loses kind `k`.
pub proof fn lemma_first_kept(a: Seq<Entity>, b: Seq<Entity>, k: ComponentKind, i: int)
    requires
        is_first_with(a, k, i),
        a.len() == b.len(),
        forall|j: int| 0 <= j < a.len() ==> (#[trigger] b[j].has(k)) == a[j].has(k),
    ensures
        is_first_with(b, k, i),
        first_with(b, k) == i,
        any_with(b, k),
{
    assert(b[i].has(k) == a[i].has(k));
    assert forall|j: int| 0 <= j < i implies !#[trigger] b[j].has(k) by {
        assert(b[j].has(k) == a[j].has(k));
    }
    lemma_first_with_unique(b, k, i);
}

/// The index of the first entity that carries a component of type `T`, if any.
pub fn index_of_first_with<T: Component>(entities: &Vec<Entity>) -> (r: Option<usize>)
    ensures
        r.is_some() == any_with(entities@, T::kind()),
        r.is_some() ==> r.unwrap() == first_with(entities@, T::kind()),
        r.is_some() ==> is_first_with(entities@, T::kind(), r.unwrap() as int),
{
    let mut i: usize = 0;
    while i < entities.len()
        invariant
            i <= entities@.len(),
            forall|j: int| 0 <= j < i ==> !#[trigger] entities@[j].has(T::kind()),
        decreases entities@.len() - i,
    {
        if entities[i].has_component::<T>() {
            proof {
                lemma_first_with_unique(entities@, T::kind(), i as int);
            }
            return Some(i);
        }
        i = i + 1;
    }
    None
}

/// Search of an entity collection, in order, for the first entity carrying a component type.
pub trait FindEntityWithComponent {
    spec fn entity_seq(&self) -> Seq<Entity>;

    fn find_entity_with_component<T: Component>(&self) -> (r: Option<&Entity>)
        ensures
            r.is_some() == any_with(self.entity_seq(), T::kind()),
            r.is_some() ==> *r.unwrap() == self.entity_seq()[first_with(
                self.entity_seq(),
                T::kind(),
            )],
    ;
}

/// The same search, handing out exclusive access to the entity found.
pub trait FindEntityWithComponentMut {
    spec fn entity_seq(&self) -> Seq<Entity>;

    fn find_entity_with_component_mut<T: Component>(&mut self) -> (r: Option<&mut Entity>)
        ensures
            r.is_some() == any_with(old(self).entity_seq(), T::kind()),
            r.is_some() ==> *r.unwrap() == old(self).entity_seq()[first_with(
                old(self).entity_seq(),
                T::kind(),
            )],
            r.is_some() ==> final(self).entity_seq() == old(self).entity_seq().update(
                first_with(old(self).entity_seq(), T::kind()),
                *final(r.unwrap()),
            ),
            r.is_none() ==> final(self).entity_seq() == old(self).entity_seq(),
    ;
}

impl FindEntityWithComponent for Vec<Entity> {
    open spec fn entity_seq(&self) -> Seq<Entity> {
        self@
    }

    fn find_entity_with_component<T: Component>(&self) -> (r: Option<&Entity>) {
        match index_of_first_with::<T>(self) {
            Some(i) => Some(&self[i]),
            None => None,
        }
    }
}

impl FindEntityWithComponentMut for Vec<Entity> {
    open spec fn entity_seq(&self) -> Seq<Entity> {
        self@
    }

    fn find_entity_with_component_mut<T: Component>(&mut self) -> (r: Option<&mut Entity>) {
        match index_of_first_with::<T>(self) {
            Some(i) => Some(&mut self[i]),
            None => None,
        }
    }
}

} // verus!
