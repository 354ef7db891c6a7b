//! Timing of the phases of a build. The clock is read by the caller, which
//! hands each reading in as nanoseconds.
use vstd::prelude::*;

verus! {

/// A completed phase: its name, when it started and ended, and the label it
/// ended with.
#[derive(Clone, Debug)]
pub struct Phase {
    name: String,
    start: u64,
    end: u64,
    end_label: Option<String>,
}

impl Phase {
    pub closed spec fn name_view(&self) -> Seq<char> {
        self.name@
    }

    pub closed spec fn start_view(&self) -> u64 {
        self.start
    }

    pub closed spec fn end_view(&self) -> u64 {
        self.end
    }

    pub closed spec fn label_view(&self) -> Option<Seq<char>> {
        match self.end_label {
            Some(l) => Some(l@),
            None => None,
        }
    }

    /// The name of the phase.
    pub fn name(&self) -> (r: &str)
        ensures
            r@ == self.name_view(),
    {
        self.name.as_str()
    }

    /// The label the phase ended with, if any.
    pub fn end_label(&self) -> (r: Option<&String>)
        ensures
            r matches Some(l) ==> self.label_view() == Some(l@),
            r is None <==> self.label_view() is None,
    {
        match &self.end_label {
            Some(l) => Some(l),
            None => None,
        }
    }

    /// How long the phase took, in nanoseconds; zero if the clock went back.
    pub fn duration(&self) -> (r: u64)
        ensures
            r == if self.end_view() >= self.start_view() {
                (self.end_view() - self.start_view()) as u64
            } else {
                0u64
            },
    {
        if self.end >= self.start {
            self.end - self.start
        } else {
            0
        }
    }
}

/// Tracks a series of phases, at most one of them ongoing.
#[derive(Clone, Debug)]
pub struct BuildTimer {
    current: Option<(String, u64)>,
    past: Vec<Phase>,
}

/// Why a phase could not be finished.
#[derive(Clone, Copy, Debug, PartialEq, Eq)]
pub enum TimerError {
    /// No phase was in progress.
    NoPhaseInProgress,
}

impl BuildTimer {
    /// The phase in progress: its name and start.
    pub closed spec fn current_view(&self) -> Option<(Seq<char>, u64)> {
        match self.current {
            Some((n, t)) => Some((n@, t)),
            None => None,
        }
    }

    /// The name of the phase in progress.
    pub closed spec fn current_name(&self) -> Seq<char> {
        match self.current {
            Some((n, _)) => n@,
            None => Seq::empty(),
        }
    }

    /// The start of the phase in progress.
    pub closed spec fn current_start(&self) -> u64 {
        match self.current {
            Some((_, t)) => t,
            None => 0,
        }
    }

    /// The completed phases, in order.
    pub closed spec fn past_view(&self) -> Seq<Phase> {
        self.past@
    }

    /// A timer with no phases.
    pub fn new() -> (r: BuildTimer)
        ensures
            r.current_view() is None,
            r.past_view().len() == 0,
    {
        BuildTimer { current: None, past: Vec::new() }
    }

    /// Starts phase `name` at time `now`, ending the phase in progress, if
    /// any, at the same time and without a label.
    pub fn start(&mut self, name: String, now: u64)
        ensures
            final(self).current_view() == Some((name@, now)),
            old(self).current_view() is None ==> final(self).past_view() == old(self).past_view(),
            old(self).current_view() is Some ==> {
                &&& final(self).past_view().len() == old(self).past_view().len() + 1
                &&& final(self).past_view().drop_last() == old(self).past_view()
                &&& final(self).past_view().last().name_view() == old(self).current_name()
                &&& final(self).past_view().last().start_view() == old(self).current_start()
                &&& final(self).past_view().last().end_view() == now
                &&& final(self).past_view().last().label_view() is None
            },
    {
        if self.current.is_some() {
            let _ = self.finish(now);
        }
        self.current = Some((name, now));
    }

    /// Ends the phase in progress at time `now` with `label`.
    pub fn finish_with_label(&mut self, label: String, now: u64) -> (r: Result<(), TimerError>)
        ensures
            r is Err <==> old(self).current_view() is None,
            r is Err ==> *final(self) == *old(self),
            r is Ok ==> final(self).current_view() is None && final(self).past_view().drop_last()
                == old(self).past_view() && final(self).past_view().len() == old(
                self,
            ).past_view().len() + 1 && final(self).past_view().last().name_view() == old(
                self,
            ).current_name() && final(self).past_view().last().start_view() == old(
                self,
            ).current_start() && final(self).past_view().last().end_view() == now
                && final(self).past_view().last().label_view() == Some(label@),
    {
        self.finish_inner(Some(label), now)
    }

    /// Ends the phase in progress at time `now`, without a label.
    pub fn finish(&mut self, now: u64) -> (r: Result<(), TimerError>)
        ensures
            r is Err <==> old(self).current_view() is None,
            r is Err ==> *final(self) == *old(self),
            r is Ok ==> final(self).current_view() is None && final(self).past_view().drop_last()
                == old(self).past_view() && final(self).past_view().len() == old(
                self,
            ).past_view().len() + 1 && final(self).past_view().last().name_view() == old(
                self,
            ).current_name() && final(self).past_view().last().start_view() == old(
                self,
            ).current_start() && final(self).past_view().last().end_view() == now
                && final(self).past_view().last().label_view() is None,
    {
        self.finish_inner(None, now)
    }

    fn finish_inner(&mut self, label: Option<String>, now: u64) -> (r: Result<(), TimerError>)
        ensures
            r is Err <==> old(self).current_view() is None,
            r is Err ==> *final(self) == *old(self),
            r is Ok ==> final(self).current_view() is None && final(self).past_view().drop_last()
                == old(self).past_view() && final(self).past_view().len() == old(
                self,
            ).past_view().len() + 1 && final(self).past_view().last().name_view() == old(
                self,
            ).current_name() && final(self).past_view().last().start_view() == old(
                self,
            ).current_start() && final(self).past_view().last().end_view() == now
                && final(self).past_view().last().label_view() == match label {
                Some(l) => Some(l@),
                None => None::<Seq<char>>,
            },
    {
        match self.current.take() {
            None => Err(TimerError::NoPhaseInProgress),
            Some((name, start)) => {
                self.past.push(Phase { name, start, end: now, end_label: label });
                proof {
                    assert(self.past@.drop_last() == old(self).past@);
                }
                Ok(())
            },
        }
    }

    /// All completed phases, in order.
    pub fn completed(&self) -> (r: &Vec<Phase>)
        ensures
            r@ == self.past_view(),
    {
        &self.past
    }
}

} // verus!
