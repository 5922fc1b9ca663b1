use vstd::prelude::*;
use crate::error::SnippetError;

verus! {

/// Which of the two window markers the next sample will be written to.
#[derive(Clone, Copy, Debug, PartialEq, Eq, Structural)]
pub enum NextUpdate {
    TimeStart,
    TimeEnd,
}

/// The two-marker capture window: successive samples of the live clock are
/// written alternately to its start and to its end. Nothing orders the two:
/// a window whose end lies before its start selects no object.
#[derive(Clone, Copy, Debug)]
pub struct SnippetsMaker {
    pub time_start: i32,
    pub time_end: i32,
    pub next_update: NextUpdate,
}

impl SnippetsMaker {
    /// The marker after `sample` has been written to the field that `self`
    /// was waiting for.
    pub open spec fn toggled(self, sample: i32) -> SnippetsMaker {
        match self.next_update {
            NextUpdate::TimeStart => SnippetsMaker {
                time_start: sample,
                time_end: self.time_end,
                next_update: NextUpdate::TimeEnd,
            },
            NextUpdate::TimeEnd => SnippetsMaker {
                time_start: self.time_start,
                time_end: sample,
                next_update: NextUpdate::TimeStart,
            },
        }
    }

    /// Whether `time` lies in the closed window.
    pub open spec fn contains(self, time: int) -> bool {
        self.time_start <= time <= self.time_end
    }

    pub fn new() -> (maker: Self)
        ensures
            maker.time_start == 0,
            maker.time_end == 0,
            maker.next_update == NextUpdate::TimeStart,
    {
        SnippetsMaker { time_start: 0, time_end: 0, next_update: NextUpdate::TimeStart }
    }

    /// Writes `ig_time` to the marker that is due and returns which one is
    /// due next: `TimeEnd` says that the start was just written.
    pub fn set_ig_time(&mut self, ig_time: i32) -> (next: Result<NextUpdate, SnippetError>)
        ensures
            *final(self) == old(self).toggled(ig_time),
            next == Ok::<NextUpdate, SnippetError>(final(self).next_update),
    {
        match self.next_update {
            NextUpdate::TimeStart => {
                self.time_start = ig_time;
                self.next_update = NextUpdate::TimeEnd;
                Ok(NextUpdate::TimeEnd)
            },
            NextUpdate::TimeEnd => {
                self.time_end = ig_time;
                self.next_update = NextUpdate::TimeStart;
                Ok(NextUpdate::TimeStart)
            },
        }
    }

    /// Takes one reading of the live clock, `None` where the clock could not
    /// be read. A reading toggles the marker as `set_ig_time` does; a failed
    /// one leaves the marker as it was.
    pub fn set_next(&mut self, sample: Option<i32>) -> (next: Result<NextUpdate, SnippetError>)
        ensures
            match sample {
                Some(ig_time) => {
                    &&& *final(self) == old(self).toggled(ig_time)
                    &&& next == Ok::<NextUpdate, SnippetError>(final(self).next_update)
                },
                None => {
                    &&& *final(self) == *old(self)
                    &&& next == Err::<NextUpdate, SnippetError>(SnippetError::SourceUnavailable)
                },
            },
    {
        match sample {
            Some(ig_time) => self.set_ig_time(ig_time),
            None => Err(SnippetError::SourceUnavailable),
        }
    }
}

/// Two samples in a row fill the window, start first, and leave the marker
/// waiting for a start again.
pub proof fn lemma_two_toggles_fill_window(maker: SnippetsMaker, first: i32, second: i32)
    requires
        maker.next_update == NextUpdate::TimeStart,
    ensures
        maker.toggled(first).toggled(second) == (SnippetsMaker {
            time_start: first,
            time_end: second,
            next_update: NextUpdate::TimeStart,
        }),
{
}

} // verus!
