//! Reporting the progress of flashing to a handler.

use vstd::prelude::*;

verus! {

/// An event in the course of flashing.
#[derive(Clone, Copy, Debug, PartialEq, Eq, Structural)]
pub enum ProgressEvent {
    Initialize { total_sectors: usize, total_pages: usize },
    PageFlashed { size: u32, time: u128 },
    SectorErased { size: u32, time: u128 },
    FinishedProgramming,
    FinishedErasing,
}

/// Hands each progress event to a handler.
pub struct FlashProgress<F: Fn(ProgressEvent)> {
    handler: F,
}

impl<F: Fn(ProgressEvent)> FlashProgress<F> {
    /// The handler that receives the events.
    pub closed spec fn handler(&self) -> F {
        self.handler
    }

    /// The handler accepts every event.
    pub open spec fn accepts_all(&self) -> bool {
        forall|event: ProgressEvent| call_requires(self.handler(), (event,))
    }

    /// A progress reporter that hands events to `handler`.
    pub fn new(handler: F) -> (progress: Self)
        ensures
            progress.handler() == handler,
    {
        FlashProgress { handler }
    }

    /// Hands `event` to the handler.
    pub fn emit(&self, event: ProgressEvent)
        requires
            self.accepts_all(),
        ensures
            call_ensures(self.handler(), (event,), ()),
    {
        (self.handler)(event)
    }

    /// Reports the number of sectors and pages about to be flashed.
    pub fn initialize(&self, total_sectors: usize, total_pages: usize)
        requires
            self.accepts_all(),
        ensures
            call_ensures(
                self.handler(),
                (ProgressEvent::Initialize { total_sectors, total_pages },),
                (),
            ),
    {
        self.emit(ProgressEvent::Initialize { total_sectors, total_pages });
    }

    /// Reports that a page of `size` bytes was programmed in `time`.
    pub fn page_programmed(&self, size: u32, time: u128)
        requires
            self.accepts_all(),
        ensures
            call_ensures(self.handler(), (ProgressEvent::PageFlashed { size, time },), ()),
    {
        self.emit(ProgressEvent::PageFlashed { size, time });
    }

    /// Reports that a sector of `size` bytes was erased in `time`.
    pub fn sector_erased(&self, size: u32, time: u128)
        requires
            self.accepts_all(),
        ensures
            call_ensures(self.handler(), (ProgressEvent::SectorErased { size, time },), ()),
    {
        self.emit(ProgressEvent::SectorErased { size, time });
    }

    /// Reports that programming has finished.
    pub fn finished_programming(&self)
        requires
            self.accepts_all(),
        ensures
            call_ensures(self.handler(), (ProgressEvent::FinishedProgramming,), ()),
    {
        self.emit(ProgressEvent::FinishedProgramming);
    }

    /// Reports that erasing has finished.
    pub fn finished_erasing(&self)
        requires
            self.accepts_all(),
        ensures
            call_ensures(self.handler(), (ProgressEvent::FinishedErasing,), ()),
    {
        self.emit(ProgressEvent::FinishedErasing);
    }
}

} // verus!
