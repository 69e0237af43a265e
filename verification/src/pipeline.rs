//! The scramble pipeline: the scramble in use, whether it has been shown,
//! and a spare one made ahead of time so that the next attempt never waits.
//!
//! The pipeline makes no scrambles itself. It says when it wants one, and
//! the host hands it what its generator made.

use vstd::prelude::*;
use crate::moves::{Move, Scramble};

verus! {

/// The scramble in use and the one that follows it.
#[derive(Debug)]
pub struct ScramblePipeline {
    current: Scramble,
    displayed: bool,
    next: Option<Scramble>,
}

/// What a pipeline holds, as mathematical values.
pub struct PipelineView {
    /// The moves of the scramble in use.
    pub current: Seq<Move>,
    /// Whether the scramble in use has been on screen.
    pub displayed: bool,
    /// The moves of the spare scramble, where there is one.
    pub next: Option<Seq<Move>>,
}

/// The moves of an optional scramble.
pub open spec fn moves_of(scramble: Option<Scramble>) -> Option<Seq<Move>> {
    match scramble {
        Some(s) => Some(s@),
        None => None,
    }
}

impl View for ScramblePipeline {
    type V = PipelineView;

    closed spec fn view(&self) -> PipelineView {
        PipelineView {
            current: self.current@,
            displayed: self.displayed,
            next: moves_of(self.next),
        }
    }
}

impl PipelineView {
    /// Whether the pipeline wants a scramble made now: the one in use is on
    /// screen and no spare is ready.
    pub open spec fn wants_scramble(self) -> bool {
        self.displayed && self.next is None
    }

    /// The pipeline after a frame in which the host handed it `made`. A
    /// scramble that was wanted becomes the spare; one that was not is
    /// dropped.
    pub open spec fn observed(self, made: Option<Seq<Move>>) -> PipelineView {
        if self.wants_scramble() {
            PipelineView { next: made, ..self }
        } else {
            self
        }
    }

    /// The pipeline once the scramble in use has been shown.
    pub open spec fn shown(self) -> PipelineView {
        PipelineView { displayed: true, ..self }
    }

    /// The pipeline after a rotation: the spare becomes the scramble in
    /// use, or `fresh` where there is no spare; no spare is left and the
    /// new scramble has not been shown.
    pub open spec fn rotated(self, fresh: Option<Seq<Move>>) -> PipelineView
        recommends
            self.next is None ==> fresh is Some,
    {
        PipelineView {
            current: match self.next {
                Some(spare) => spare,
                None => fresh.unwrap(),
            },
            displayed: false,
            next: None,
        }
    }
}

impl ScramblePipeline {
    /// A pipeline that starts with `current`, not yet shown, and the spare
    /// `next`.
    pub fn new(current: Scramble, next: Option<Scramble>) -> (p: ScramblePipeline)
        ensures
            p@ == (PipelineView { current: current@, displayed: false, next: moves_of(next) }),
            p@.current.len() > 0,
    {
        // A scramble's length is known to be positive only through `len`.
        let _ = current.len();
        ScramblePipeline { current, displayed: false, next }
    }

    /// The scramble in use. It is never empty.
    pub fn current_scramble(&self) -> (s: &Scramble)
        ensures
            s@ == self@.current,
            s@.len() > 0,
    {
        // A scramble's length is known to be positive only through `len`.
        let _ = self.current.len();
        &self.current
    }

    /// Whether the scramble in use has been on screen.
    pub fn is_displayed(&self) -> (b: bool)
        ensures
            b == self@.displayed,
    {
        self.displayed
    }

    /// Whether a spare scramble is ready.
    pub fn has_next(&self) -> (b: bool)
        ensures
            b == (self@.next is Some),
    {
        self.next.is_some()
    }

    /// Whether the pipeline wants a scramble made now.
    pub fn wants_scramble(&self) -> (b: bool)
        ensures
            b == self@.wants_scramble(),
    {
        self.displayed && self.next.is_none()
    }

    /// Takes note of a frame. Where the scramble in use is on screen and no
    /// spare is ready, `made` becomes the spare; otherwise `made` is
    /// dropped and nothing changes.
    pub fn on_frame_observed(&mut self, made: Option<Scramble>)
        ensures
            final(self)@ == old(self)@.observed(moves_of(made)),
            final(self)@.current.len() > 0,
    {
        // A scramble's length is known to be positive only through `len`.
        let _ = self.current.len();
        if self.displayed && self.next.is_none() {
            self.next = made;
        }
    }

    /// Records that the scramble in use has been on screen.
    pub fn mark_displayed(&mut self)
        ensures
            final(self)@ == old(self)@.shown(),
            final(self)@.current.len() > 0,
    {
        // A scramble's length is known to be positive only through `len`.
        let _ = self.current.len();
        self.displayed = true;
    }

    /// Moves on to the next scramble: the spare where one is ready, else
    /// `fresh`, which the caller must then supply. Afterwards a scramble is
    /// in use that is not empty and has not been shown, and no spare is
    /// left.
    pub fn rotate(&mut self, fresh: Option<Scramble>)
        requires
            old(self)@.next is None ==> fresh is Some,
        ensures
            final(self)@ == old(self)@.rotated(moves_of(fresh)),
            final(self)@.current.len() > 0,
            !final(self)@.displayed,
            final(self)@.next is None,
    {
        let spare: Option<Scramble> = self.next.take();
        let following: Scramble = match spare {
            Some(s) => s,
            None => fresh.unwrap(),
        };
        // A scramble's length is known to be positive only through `len`.
        let _ = following.len();
        self.current = following;
        self.displayed = false;
    }
}

} // verus!
