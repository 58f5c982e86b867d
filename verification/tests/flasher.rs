use probe_rs::builder::{FlashBuilder, NoFill, RestoreFill};
use probe_rs::error::FlashError;
use probe_rs::flash_algorithm::FlashAlgorithm;
use probe_rs::flasher::{
    buffered_program_call, page_write_result, run_steps, step_result,
    call_function_writes, erase_all_call, erase_sector_call, init_call, page_buffer_address,
    program_page_call, routine_result, uninit_call, verify_algorithm_readback, Erase, FlashStep,
    Flasher, Operation, Program, RegisterRole, RoutineCall, Verify,
};
use probe_rs::memory::{AddressRange, FlashRegion, MemoryRegion};
use probe_rs::targets::nRF51822;

fn nrf51_algorithm() -> FlashAlgorithm {
    nRF51822().flash_algorithms.remove(0)
}

fn nrf51_flash_region() -> FlashRegion {
    match nRF51822().variants[0].memory_map[0] {
        MemoryRegion::Flash(region) => region,
        _ => panic!("the first region of the nRF51822 is its flash"),
    }
}

#[test]
fn operation_codes_and_names() {
    assert_eq!(Erase::operation(), 1);
    assert_eq!(Program::operation(), 2);
    assert_eq!(Verify::operation(), 3);
    assert_eq!(Erase.operation_name(), "Erase");
    assert_eq!(Program.operation_name(), "Program");
    assert_eq!(Verify.operation_name(), "Verify");
}

#[test]
fn routine_result_zero_is_success() {
    assert!(routine_result("init", 0).is_ok());
    assert!(matches!(
        routine_result("init", 3),
        Err(FlashError::RoutineCallFailed { name: "init", errorcode: 3 })
    ));
}

#[test]
fn readback_compares_common_words() {
    assert!(verify_algorithm_readback(&[1, 2, 3], &[1, 2, 3]).is_ok());
    assert!(verify_algorithm_readback(&[1, 2, 3], &[1, 2]).is_ok());
    assert!(matches!(
        verify_algorithm_readback(&[1, 2, 3], &[1, 5, 3]),
        Err(FlashError::FlashAlgorithmNotLoaded)
    ));
}

#[test]
fn init_call_passes_address_clock_and_operation() {
    let algo = nrf51_algorithm();
    let call = init_call::<Erase>(&algo, Some(0x1000), None).unwrap();
    assert_eq!(
        call,
        RoutineCall {
            pc: 0x20000021,
            r0: Some(0x1000),
            r1: Some(0),
            r2: Some(1),
            r3: None,
            init: true
        }
    );
    let call = init_call::<Program>(&algo, None, Some(64_000_000)).unwrap();
    assert_eq!(call.r0, None);
    assert_eq!(call.r1, Some(64_000_000));
    assert_eq!(call.r2, Some(2));
}

#[test]
fn missing_routines() {
    let mut algo = nrf51_algorithm();
    assert!(uninit_call::<Verify>(&algo).is_none());
    algo.pc_uninit = Some(0x20000061);
    assert_eq!(
        uninit_call::<Verify>(&algo),
        Some(RoutineCall { pc: 0x20000061, r0: Some(3), r1: None, r2: None, r3: None, init: false })
    );
    algo.pc_init = None;
    assert!(init_call::<Erase>(&algo, None, None).is_none());
    assert_eq!(erase_all_call(&algo).unwrap().pc, 0x20000029);
    algo.pc_erase_all = None;
    assert!(matches!(erase_all_call(&algo), Err(FlashError::RoutineNotSupported("erase_all"))));
}

#[test]
fn sector_and_page_calls() {
    let algo = nrf51_algorithm();
    assert_eq!(
        erase_sector_call(&algo, 0x400),
        RoutineCall { pc: 0x20000049, r0: Some(0x400), r1: None, r2: None, r3: None, init: false }
    );
    assert_eq!(
        program_page_call(&algo, 0x800, 1024),
        RoutineCall {
            pc: 0x20000071,
            r0: Some(0x800),
            r1: Some(1024),
            r2: Some(0x20002000),
            r3: None,
            init: false
        }
    );
}

#[test]
fn register_writes_of_a_call() {
    let algo = nrf51_algorithm();
    let call = init_call::<Erase>(&algo, Some(0), Some(0)).unwrap();
    assert_eq!(
        call_function_writes(&algo, &call),
        vec![
            (RegisterRole::ProgramCounter, 0x20000021),
            (RegisterRole::Argument(0), 0),
            (RegisterRole::Argument(1), 0),
            (RegisterRole::Argument(2), 1),
            (RegisterRole::StaticBase, 0x20000170),
            (RegisterRole::StackPointer, 0x20001000),
            (RegisterRole::ReturnAddress, 0x20000001),
        ]
    );
    let call = erase_sector_call(&algo, 0x400);
    assert_eq!(
        call_function_writes(&algo, &call),
        vec![
            (RegisterRole::ProgramCounter, 0x20000049),
            (RegisterRole::Argument(0), 0x400),
            (RegisterRole::ReturnAddress, 0x20000001),
        ]
    );
}

#[test]
fn page_buffer_numbers_select_existing_buffers() {
    let algo = nrf51_algorithm();
    assert_eq!(page_buffer_address(&algo, 0).unwrap(), 0x20002000);
    assert_eq!(page_buffer_address(&algo, 1).unwrap(), 0x20002400);
    assert!(matches!(
        page_buffer_address(&algo, 2),
        Err(FlashError::InvalidBufferNumber { n: 2, max: 2 })
    ));
}

#[test]
fn buffered_program_call_programs_a_whole_page_from_the_buffer() {
    let algo = nrf51_algorithm();
    assert_eq!(
        buffered_program_call(&algo, 0x800, 1).unwrap(),
        RoutineCall {
            pc: 0x20000071,
            r0: Some(0x800),
            r1: Some(0x400),
            r2: Some(0x20002400),
            r3: None,
            init: false,
        }
    );
    assert!(matches!(
        buffered_program_call(&algo, 0x800, 3),
        Err(FlashError::InvalidBufferNumber { n: 3, max: 2 })
    ));
}

#[test]
fn flasher_init_address_defaults_to_region_start() {
    let algo = nrf51_algorithm();
    let region = FlashRegion {
        range: AddressRange { start: 0x1000, end: 0x2000 },
        is_boot_memory: false,
        sector_size: 0x400,
        page_size: 0x400,
        erased_byte_value: 0xff,
    };
    let flasher = Flasher::new(&algo, &region);
    assert!(!flasher.double_buffering_supported());
    assert_eq!(flasher.init_address(None), 0x1000);
    assert_eq!(flasher.init_address(Some(0x1800)), 0x1800);
    assert_eq!(flasher.flash_algorithm().name, "nrf51");
}

#[test]
fn program_erases_sectors_then_programs_pages() {
    let algo = nrf51_algorithm();
    let region = nrf51_flash_region();
    let flasher = Flasher::new(&algo, &region);
    let data = vec![7u8; 1500];
    let mut builder = FlashBuilder::new();
    builder.add_data(0x400, &data).unwrap();
    let layout = builder.build_sectors_and_pages(&algo, &NoFill { erased_byte_value: 0xff }).unwrap();
    let steps = flasher.program(&layout, false, true);
    assert_eq!(steps.len(), 4);
    assert!(matches!(steps[0], FlashStep::EraseSector { address: 0x400 }));
    assert!(matches!(steps[1], FlashStep::EraseSector { address: 0x800 }));
    match &steps[2] {
        FlashStep::ProgramPage { address, data } => {
            assert_eq!(*address, 0x400);
            assert_eq!(data.len(), 1024);
        }
        other => panic!("unexpected step {:?}", other),
    }
    match &steps[3] {
        FlashStep::ProgramPage { address, data } => {
            assert_eq!(*address, 0x800);
            assert_eq!(data.len(), 476);
        }
        other => panic!("unexpected step {:?}", other),
    }
    // Chip erase replaces the sector erases when the algorithm has the routine.
    let steps = flasher.program(&layout, true, false);
    assert_eq!(steps.len(), 3);
    assert!(matches!(steps[0], FlashStep::EraseAll));
}

#[test]
fn flash_block_checks_the_region() {
    let algo = nrf51_algorithm();
    let region = nrf51_flash_region();
    let flasher = Flasher::new(&algo, &region);
    let flash = RestoreFill { start: 0, contents: vec![9u8; 0x400], erased_byte_value: 0xff };
    let steps = flasher.flash_block(2, &[1, 2, 3, 4], &flash, false).unwrap();
    assert_eq!(steps.len(), 2);
    assert!(matches!(steps[0], FlashStep::EraseSector { address: 0 }));
    match &steps[1] {
        FlashStep::ProgramPage { address, data } => {
            // The rest of the page keeps what was read from the flash.
            assert_eq!(*address, 0);
            assert_eq!(data.len(), 0x400);
            assert_eq!(&data[..8], &[9, 9, 1, 2, 3, 4, 9, 9]);
            assert!(data[6..].iter().all(|b| *b == 9));
        }
        other => panic!("unexpected step {:?}", other),
    }
    assert!(matches!(
        flasher.flash_block(0x3ffff, &[1, 2], &flash, false),
        Err(FlashError::AddressNotInRegion { address: 0x3ffff, .. })
    ));
}

#[test]
fn page_write_completion_codes() {
    assert!(page_write_result(0x400, 0).is_ok());
    assert!(matches!(
        page_write_result(0x400, 5),
        Err(FlashError::PageWrite { page_address: 0x400, error_code: 5 })
    ));
}

#[test]
fn double_buffering_waits_for_every_page() {
    let algo = nrf51_algorithm();
    let region = nrf51_flash_region();
    let flasher = Flasher::new(&algo, &region);
    let data = vec![7u8; 0x400 * 3];
    let mut builder = FlashBuilder::new();
    builder.add_data(0x400, &data).unwrap();
    let layout = builder.build_sectors_and_pages(&algo, &NoFill { erased_byte_value: 0xff }).unwrap();
    let steps = flasher.program_double_buffer(&layout);
    assert_eq!(steps.len(), 9);
    assert!(matches!(&steps[0], FlashStep::LoadPageBuffer { buffer: 0, data } if data.len() == 0x400));
    assert!(matches!(steps[1], FlashStep::StartPageProgram { address: 0x400, buffer: 0 }));
    assert!(matches!(&steps[2], FlashStep::LoadPageBuffer { buffer: 1, .. }));
    assert!(matches!(steps[3], FlashStep::AwaitPage { address: 0x400 }));
    assert!(matches!(steps[4], FlashStep::StartPageProgram { address: 0x800, buffer: 1 }));
    assert!(matches!(&steps[5], FlashStep::LoadPageBuffer { buffer: 0, .. }));
    assert!(matches!(steps[6], FlashStep::AwaitPage { address: 0x800 }));
    assert!(matches!(steps[7], FlashStep::StartPageProgram { address: 0xc00, buffer: 0 }));
    assert!(matches!(steps[8], FlashStep::AwaitPage { address: 0xc00 }));
    // The flasher only uses this plan where double buffering is supported.
    let plain = flasher.program(&layout, false, true);
    assert!(matches!(plain[3], FlashStep::ProgramPage { address: 0x400, .. }));
}

#[test]
fn step_results_name_what_failed() {
    assert!(step_result(&FlashStep::EraseAll, 0).is_ok());
    assert!(matches!(
        step_result(&FlashStep::EraseAll, 2),
        Err(FlashError::RoutineCallFailed { name: "erase_all", errorcode: 2 })
    ));
    assert!(matches!(
        step_result(&FlashStep::EraseSector { address: 0x400 }, 3),
        Err(FlashError::RoutineCallFailed { name: "erase_sector", errorcode: 3 })
    ));
    assert!(matches!(
        step_result(&FlashStep::ProgramPage { address: 0x400, data: vec![1] }, 4),
        Err(FlashError::RoutineCallFailed { name: "program_page", errorcode: 4 })
    ));
    assert!(matches!(
        step_result(&FlashStep::AwaitPage { address: 0x800 }, 5),
        Err(FlashError::PageWrite { page_address: 0x800, error_code: 5 })
    ));
    assert!(step_result(&FlashStep::StartPageProgram { address: 0x800, buffer: 1 }, 5).is_ok());
    assert!(step_result(&FlashStep::LoadPageBuffer { data: vec![1], buffer: 0 }, 5).is_ok());
}

#[test]
fn run_steps_stops_at_the_first_failure() {
    let steps = vec![
        FlashStep::LoadPageBuffer { data: vec![1, 2], buffer: 0 },
        FlashStep::StartPageProgram { address: 0x400, buffer: 0 },
        FlashStep::AwaitPage { address: 0x400 },
        FlashStep::EraseSector { address: 0x800 },
    ];
    let seen = std::cell::Cell::new(0usize);
    let failing = |step: &FlashStep| {
        seen.set(seen.get() + 1);
        match step {
            FlashStep::AwaitPage { .. } => Ok(7),
            _ => Ok(0),
        }
    };
    assert!(matches!(
        run_steps(&steps, &failing),
        Err(FlashError::PageWrite { page_address: 0x400, error_code: 7 })
    ));
    assert_eq!(seen.get(), 3);
    assert!(run_steps(&steps, &|_: &FlashStep| Ok(0)).is_ok());
    assert!(matches!(
        run_steps(&steps, &|_: &FlashStep| Err(FlashError::FlashAlgorithmNotLoaded)),
        Err(FlashError::FlashAlgorithmNotLoaded)
    ));
}
