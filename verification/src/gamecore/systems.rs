//! `gamecore::systems` submodule provides systems - functions that operate on
//! a scene and implement the whole behaviour of an application.
//!

use crate::gamecore::scenes::Scene;
use vstd::prelude::*;

pub use crate::gamecore::storages::system_storage::{SystemPosition, SystemStorage};

verus! {

/// Number of the system kind that is reserved for the placeholder system.
///
/// A system that is taken out of a [`SystemStorage`] leaves a placeholder with this id behind.
///
pub const PLACEHOLDER_SYSTEM_KIND: u64 = 0xffff_ffff_ffff_ffff;

/// [`SystemId`] id struct is needed to identify [`System`]s in a [`SystemStorage`].
///
/// # Usage
/// Usage of this struct is fairly advanced.
/// Storages internally operate on ids, which allows them to provide more flexible interface.
///
#[derive(Copy, Clone, Debug, PartialEq, Eq, Structural, Hash)]
pub struct SystemId(pub u64);

impl SystemId {
    /// Returns [`SystemId`] of the system kind numbered `kind`.
    ///
    pub fn of(kind: u64) -> (id: SystemId)
        ensures
            id.0 == kind,
    {
        SystemId(kind)
    }
}

/// Id of the placeholder system.
///
pub open spec fn placeholder_id() -> SystemId {
    SystemId(PLACEHOLDER_SYSTEM_KIND)
}

/// [`System`] trait represents functions that implement behaviour of a [`Scene`].
///
/// Every system is isomorphic to `FnMut(&mut Scene)`: it has an id and it runs on a scene.
/// Running a system keeps the scene well-formed.
///
/// The id of a system is a function of the system: `spec_id` names it for verification,
/// and `id` computes it, so both give the same id.
///
pub trait System<V, R, E>: Sized {
    /// Id of the system, as a function of the system.
    ///
    spec fn spec_id(&self) -> SystemId;

    /// Id of the system.
    ///
    fn id(&self) -> (id: SystemId)
        ensures
            id == self.spec_id(),
    ;

    /// What a run of the system does: run on `scene`, the system may leave itself as
    /// `system_after` and the scene as `scene_after`.
    ///
    spec fn runs_to(&self, scene: Scene<V, R, E, Self>, system_after: Self, scene_after: Scene<V, R, E, Self>) -> bool;

    /// Runs system function.
    ///
    fn run(&mut self, scene: &mut Scene<V, R, E, Self>)
        requires
            old(scene).wf(),
        ensures
            final(scene).wf(),
            old(self).runs_to(*old(scene), *final(self), *final(scene)),
    ;
}

/// [`DecomposedSystem`] struct is what any system could be coerced to:
/// the id of the system together with the system itself.
///
/// The placeholder system holds no system; it is left in a [`SystemStorage`]
/// in place of a system that was taken out.
///
#[derive(Debug)]
pub struct DecomposedSystem<S> {
    /// Id of a system which was coerced to [`DecomposedSystem`].
    ///
    id: SystemId,
    /// The system, absent for the placeholder.
    ///
    f: Option<S>,
}

impl<S> DecomposedSystem<S> {
    /// Id of the decomposed system.
    ///
    pub closed spec fn spec_id(&self) -> SystemId {
        self.id
    }

    /// The system that is held, `None` for the placeholder.
    ///
    pub closed spec fn system(&self) -> Option<S> {
        self.f
    }

    /// The decomposition of `system` whose id is `id`.
    ///
    pub closed spec fn decomposed(id: SystemId, system: S) -> Self {
        DecomposedSystem { id, f: Some(system) }
    }

    /// The placeholder system.
    ///
    pub closed spec fn spec_placeholder() -> Self {
        DecomposedSystem { id: placeholder_id(), f: None }
    }

    /// Decomposition is determined by the id and the held system.
    ///
    pub proof fn lemma_decomposed(self)
        ensures
            self.system() is Some ==> self == Self::decomposed(self.spec_id(), self.system()->0),
            self.system() is None && self.spec_id() == placeholder_id() ==> self == Self::spec_placeholder(),
            Self::decomposed(self.spec_id(), self.system()->0).spec_id() == self.spec_id(),
            Self::spec_placeholder().spec_id() == placeholder_id(),
            Self::spec_placeholder().system() is None,
    {
    }

    /// The decomposition of `system` under `id` has the id `id` and holds `system`.
    ///
    pub proof fn lemma_decomposed_parts(id: SystemId, system: S)
        ensures
            Self::decomposed(id, system).spec_id() == id,
            Self::decomposed(id, system).system() == Some(system),
    {
    }

    /// Law: running the decomposition of `system` is running `system` itself: the run of the
    /// decomposition is exactly a run of `system`, and the id stays.
    ///
    pub proof fn law_decomposed_runs_its_system<V, R, E>(
        id: SystemId,
        system: S,
        scene: Scene<V, R, E, S>,
        after: Self,
        scene_after: Scene<V, R, E, S>,
    ) where S: System<V, R, E>
        ensures
            Self::decomposed(id, system).runs_to(scene, after, scene_after) <==> {
                &&& after.spec_id() == id
                &&& after.system() is Some
                &&& system.runs_to(scene, after.system()->0, scene_after)
            },
    {
    }

    /// Decomposes a system.
    ///
    /// This function allows unifying different systems to one type.
    ///
    pub fn from_system<V, R, E>(system: S) -> (decomposed: Self) where S: System<V, R, E>
        ensures
            decomposed == Self::decomposed(system.spec_id(), system),
            decomposed.spec_id() == system.spec_id(),
            decomposed.system() == Some(system),
    {
        DecomposedSystem { id: system.id(), f: Some(system) }
    }

    /// Returns the placeholder system.
    ///
    pub(crate) fn placeholder() -> (placeholder: Self)
        ensures
            placeholder == Self::spec_placeholder(),
    {
        DecomposedSystem { id: SystemId(PLACEHOLDER_SYSTEM_KIND), f: None }
    }

    /// Returns inner system, `None` for the placeholder.
    ///
    pub fn system_fn(self) -> (system: Option<S>)
        ensures
            system == self.system(),
    {
        self.f
    }

    /// Id of the decomposed system.
    ///
    pub fn id(&self) -> (id: SystemId)
        ensures
            id == self.spec_id(),
    {
        self.id
    }

    /// What a run of the decomposed system does: the held system runs on `scene` and is left
    /// as the system held by `after`, with the scene left as `scene_after`; the placeholder
    /// changes nothing. The id stays either way.
    ///
    pub open spec fn runs_to<V, R, E>(&self, scene: Scene<V, R, E, S>, after: Self, scene_after: Scene<V, R, E, S>) -> bool where S: System<V, R, E> {
        &&& after.spec_id() == self.spec_id()
        &&& match self.system() {
            Some(system) => after.system() is Some && system.runs_to(scene, after.system()->0, scene_after),
            None => after == *self && scene_after == scene,
        }
    }

    /// Runs the inner system on `scene`; the placeholder does nothing.
    ///
    pub fn run<V, R, E>(&mut self, scene: &mut Scene<V, R, E, S>) where S: System<V, R, E>
        requires
            old(scene).wf(),
        ensures
            final(scene).wf(),
            final(self).spec_id() == old(self).spec_id(),
            final(self).system() is Some <==> old(self).system() is Some,
            old(self).system() is None ==> *final(scene) == *old(scene),
            old(self).runs_to(*old(scene), *final(self), *final(scene)),
    {
        match &mut self.f {
            Some(system) => system.run(scene),
            None => {},
        }
    }
}

} // verus!
