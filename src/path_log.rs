//! The boundary between the integrator and the sampler that does the
//! numeric work: every call on the sampler goes through `AnswerLog`, which
//! records the kind of each call and its answer.
use vstd::prelude::*;

verus! {

/// One path through a scene, advanced one surface at a time.
pub trait PathSampler {
    /// Intersects the current ray with the scene. On a hit, records the
    /// surface, adds its emission to the radiance and returns `true`; on a
    /// miss, adds the background and returns `false`.
    fn intersect(&mut self) -> bool;

    /// Scatters the current ray off the recorded surface: on success, weighs
    /// the path by the attenuation, makes the scattered ray current and returns
    /// `true`; returns `false` when the surface absorbs the ray.
    fn scatter(&mut self) -> bool;
}

/// Which method of a sampler was called.
#[derive(Clone, Copy, Debug, PartialEq, Eq)]
pub enum Call {
    Intersect,
    Scatter,
}

/// A sampler that can only be called through this wrapper, together with the
/// log of every call made on it, oldest first, each with its answer.
pub struct AnswerLog<S> {
    sampler: S,
    log: Ghost<Seq<(Call, bool)>>,
}

impl<S: PathSampler> AnswerLog<S> {
    /// The calls made so far, with their answers.
    pub closed spec fn calls(&self) -> Seq<(Call, bool)> {
        self.log@
    }

    /// Starts a log with no calls.
    pub fn new(sampler: S) -> (r: AnswerLog<S>)
        ensures
            r.calls() == Seq::<(Call, bool)>::empty(),
    {
        AnswerLog { sampler, log: Ghost(Seq::empty()) }
    }

    /// Asks the sampler to intersect, and logs the call and its answer.
    pub fn intersect(&mut self) -> (r: bool)
        ensures
            final(self).calls() == old(self).calls().push((Call::Intersect, r)),
    {
        let r = self.sampler.intersect();
        self.log = Ghost(self.log@.push((Call::Intersect, r)));
        r
    }

    /// Asks the sampler to scatter, and logs the call and its answer.
    pub fn scatter(&mut self) -> (r: bool)
        ensures
            final(self).calls() == old(self).calls().push((Call::Scatter, r)),
    {
        let r = self.sampler.scatter();
        self.log = Ghost(self.log@.push((Call::Scatter, r)));
        r
    }

    /// The sampler, to read what it gathered; it cannot be called through
    /// this reference.
    pub fn sampler(&self) -> &S {
        &self.sampler
    }

    /// Ends the log and hands back the sampler.
    pub fn into_sampler(self) -> S {
        self.sampler
    }
}

} // verus!
