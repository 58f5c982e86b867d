use probe_rs::progress::{FlashProgress, ProgressEvent};
use std::cell::RefCell;

#[test]
fn events_reach_the_handler_in_order() {
    let seen = RefCell::new(Vec::new());
    let progress = FlashProgress::new(|event| seen.borrow_mut().push(event));
    progress.initialize(2, 8);
    progress.sector_erased(4096, 30);
    progress.finished_erasing();
    progress.page_programmed(1024, 12);
    progress.finished_programming();
    progress.emit(ProgressEvent::FinishedErasing);
    assert_eq!(
        *seen.borrow(),
        vec![
            ProgressEvent::Initialize { total_sectors: 2, total_pages: 8 },
            ProgressEvent::SectorErased { size: 4096, time: 30 },
            ProgressEvent::FinishedErasing,
            ProgressEvent::PageFlashed { size: 1024, time: 12 },
            ProgressEvent::FinishedProgramming,
            ProgressEvent::FinishedErasing,
        ]
    );
}
