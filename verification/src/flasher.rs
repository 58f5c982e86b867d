//! The decisions of flash programming: which routines of the flash algorithm
//! to call, with which arguments, and in which order.

use vstd::prelude::*;
use crate::builder::{spec_layout, FlashBuilder, FlashLayout, FlashPage, FlashSector, LayoutView, PageView, RestoreFill};
use crate::error::FlashError;
use crate::flash_algorithm::FlashAlgorithm;
use crate::memory::{contains_range, spec_contains_range, AddressRange, FlashRegion};

verus! {

/// The name of an operation code, as the flash algorithm knows it.
pub open spec fn spec_operation_name(code: u32) -> Seq<char> {
    if code == 1 {
        "Erase"@
    } else if code == 2 {
        "Program"@
    } else if code == 3 {
        "Verify"@
    } else {
        "Unknown Operation"@
    }
}

/// An operation of a flash algorithm, passed to its init and uninit routines.
pub trait Operation {
    spec fn spec_operation() -> u32;

    /// The operation code.
    fn operation() -> (code: u32)
        ensures
            code == Self::spec_operation(),
    ;

    /// The name of the operation.
    fn operation_name(&self) -> (name: &'static str)
        ensures
            name@ == spec_operation_name(Self::spec_operation()),
    {
        let code = Self::operation();
        if code == 1 {
            "Erase"
        } else if code == 2 {
            "Program"
        } else if code == 3 {
            "Verify"
        } else {
            "Unknown Operation"
        }
    }
}

/// Erasing flash.
pub struct Erase;

impl Operation for Erase {
    open spec fn spec_operation() -> u32 {
        1
    }

    fn operation() -> (code: u32) {
        1
    }
}

/// Programming flash.
pub struct Program;

impl Operation for Program {
    open spec fn spec_operation() -> u32 {
        2
    }

    fn operation() -> (code: u32) {
        2
    }
}

/// Verifying flash.
pub struct Verify;

impl Operation for Verify {
    open spec fn spec_operation() -> u32 {
        3
    }

    fn operation() -> (code: u32) {
        3
    }
}

/// A call of a routine of the flash algorithm: its entry point, its four
/// arguments (those that are set), and whether the stack and static base are set up.
#[derive(Clone, Copy, Debug, PartialEq, Eq, Structural)]
pub struct RoutineCall {
    pub pc: u32,
    pub r0: Option<u32>,
    pub r1: Option<u32>,
    pub r2: Option<u32>,
    pub r3: Option<u32>,
    pub init: bool,
}

/// A core register written before a routine runs.
#[derive(Clone, Copy, Debug, PartialEq, Eq, Structural)]
pub enum RegisterRole {
    ProgramCounter,
    Argument(u8),
    StaticBase,
    StackPointer,
    ReturnAddress,
}

/// The register writes that start a routine: the program counter, the
/// arguments that are set, the static base and the stack pointer on the
/// init call, and a return address just after the algorithm's load address.
pub open spec fn spec_call_writes(algo: FlashAlgorithm, call: RoutineCall) -> Seq<(RegisterRole, u32)> {
    let arg = |i: u8, v: Option<u32>| match v {
        Some(x) => seq![(RegisterRole::Argument(i), x)],
        None => Seq::<(RegisterRole, u32)>::empty(),
    };
    seq![(RegisterRole::ProgramCounter, call.pc)] + arg(0, call.r0) + arg(1, call.r1) + arg(2, call.r2)
        + arg(3, call.r3) + (if call.init {
        seq![(RegisterRole::StaticBase, algo.static_base), (RegisterRole::StackPointer, algo.begin_stack)]
    } else {
        Seq::empty()
    }) + seq![(RegisterRole::ReturnAddress, (algo.load_address + 1) as u32)]
}

fn push_argument(writes: &mut Vec<(RegisterRole, u32)>, index: u8, value: Option<u32>)
    ensures
        final(writes)@ == old(writes)@ + match value {
            Some(x) => seq![(RegisterRole::Argument(index), x)],
            None => Seq::<(RegisterRole, u32)>::empty(),
        },
{
    match value {
        Some(x) => {
            writes.push((RegisterRole::Argument(index), x));
            assert(writes@ =~= old(writes)@ + seq![(RegisterRole::Argument(index), x)]);
        },
        None => {
            assert(writes@ =~= old(writes)@ + Seq::<(RegisterRole, u32)>::empty());
        },
    }
}

/// The register writes, in order, that start the routine `call`.
pub fn call_function_writes(algo: &FlashAlgorithm, call: &RoutineCall) -> (writes: Vec<(RegisterRole, u32)>)
    requires
        algo.load_address < u32::MAX,
    ensures
        writes@ == spec_call_writes(*algo, *call),
{
    let mut writes: Vec<(RegisterRole, u32)> = Vec::new();
    writes.push((RegisterRole::ProgramCounter, call.pc));
    push_argument(&mut writes, 0, call.r0);
    push_argument(&mut writes, 1, call.r1);
    push_argument(&mut writes, 2, call.r2);
    push_argument(&mut writes, 3, call.r3);
    let ghost before_init = writes@;
    if call.init {
        writes.push((RegisterRole::StaticBase, algo.static_base));
        writes.push((RegisterRole::StackPointer, algo.begin_stack));
    }
    writes.push((RegisterRole::ReturnAddress, algo.load_address + 1));
    assert(writes@ =~= spec_call_writes(*algo, *call));
    writes
}

/// A routine that returned `result`: zero is success, anything else the
/// failure of the routine called `name`.
pub fn routine_result(name: &'static str, result: u32) -> (r: Result<(), FlashError>)
    ensures
        result == 0 ==> r == Ok::<(), FlashError>(()),
        result != 0 ==> r == Err::<(), FlashError>(FlashError::RoutineCallFailed { name, errorcode: result }),
{
    if result != 0 {
        Err(FlashError::RoutineCallFailed { name, errorcode: result })
    } else {
        Ok(())
    }
}

/// The outcome of programming the page at `page_address` from a page buffer,
/// given the code that the program routine returned on completion: zero is
/// success, anything else a failed page write.
pub fn page_write_result(page_address: u32, result: u32) -> (r: Result<(), FlashError>)
    ensures
        result == 0 ==> r == Ok::<(), FlashError>(()),
        result != 0 ==> r == Err::<(), FlashError>(FlashError::PageWrite { page_address, error_code: result }),
{
    if result != 0 {
        Err(FlashError::PageWrite { page_address, error_code: result })
    } else {
        Ok(())
    }
}

/// Compares the algorithm's code with what was read back from RAM, word by
/// word as far as both go.
pub fn verify_algorithm_readback(written: &[u32], read_back: &[u32]) -> (r: Result<(), FlashError>)
    ensures
        r is Ok <==> forall|i: int|
            0 <= i < written@.len() && i < read_back@.len() ==> written@[i] == read_back@[i],
        r is Err ==> r == Err::<(), FlashError>(FlashError::FlashAlgorithmNotLoaded),
{
    let n = if written.len() < read_back.len() {
        written.len()
    } else {
        read_back.len()
    };
    let mut i: usize = 0;
    while i < n
        invariant
            n <= written@.len(),
            n <= read_back@.len(),
            n == written@.len() || n == read_back@.len(),
            0 <= i <= n,
            forall|k: int| 0 <= k < i ==> written@[k] == read_back@[k],
        decreases n - i,
    {
        if written[i] != read_back[i] {
            return Err(FlashError::FlashAlgorithmNotLoaded);
        }
        i = i + 1;
    }
    Ok(())
}

/// The init routine's call, if the algorithm has one: address, clock (zero
/// when not given) and the operation code.
pub fn init_call<O: Operation>(algo: &FlashAlgorithm, address: Option<u32>, clock: Option<u32>) -> (call: Option<RoutineCall>)
    ensures
        match algo.pc_init {
            None => call is None,
            Some(pc) => call == Some(RoutineCall {
                pc,
                r0: address,
                r1: match clock {
                    Some(c) => Some(c),
                    None => Some(0u32),
                },
                r2: Some(O::spec_operation()),
                r3: None,
                init: true,
            }),
        },
{
    match algo.pc_init {
        None => None,
        Some(pc) => Some(
            RoutineCall {
                pc,
                r0: address,
                r1: match clock {
                    Some(c) => Some(c),
                    None => Some(0),
                },
                r2: Some(O::operation()),
                r3: None,
                init: true,
            },
        ),
    }
}

/// The uninit routine's call, if the algorithm has one: the operation code.
pub fn uninit_call<O: Operation>(algo: &FlashAlgorithm) -> (call: Option<RoutineCall>)
    ensures
        match algo.pc_uninit {
            None => call is None,
            Some(pc) => call == Some(RoutineCall {
                pc,
                r0: Some(O::spec_operation()),
                r1: None,
                r2: None,
                r3: None,
                init: false,
            }),
        },
{
    match algo.pc_uninit {
        None => None,
        Some(pc) => Some(
            RoutineCall { pc, r0: Some(O::operation()), r1: None, r2: None, r3: None, init: false },
        ),
    }
}

/// The call that erases the whole chip, or why there is none.
pub fn erase_all_call(algo: &FlashAlgorithm) -> (call: Result<RoutineCall, FlashError>)
    ensures
        match algo.pc_erase_all {
            None => call == Err::<RoutineCall, FlashError>(FlashError::RoutineNotSupported("erase_all")),
            Some(pc) => call == Ok::<RoutineCall, FlashError>(RoutineCall {
                pc,
                r0: None,
                r1: None,
                r2: None,
                r3: None,
                init: false,
            }),
        },
{
    match algo.pc_erase_all {
        None => Err(FlashError::RoutineNotSupported("erase_all")),
        Some(pc) => Ok(RoutineCall { pc, r0: None, r1: None, r2: None, r3: None, init: false }),
    }
}

/// The call that erases the sector at `address`.
pub fn erase_sector_call(algo: &FlashAlgorithm, address: u32) -> (call: RoutineCall)
    ensures
        call == (RoutineCall {
            pc: algo.pc_erase_sector,
            r0: Some(address),
            r1: None,
            r2: None,
            r3: None,
            init: false,
        }),
{
    RoutineCall { pc: algo.pc_erase_sector, r0: Some(address), r1: None, r2: None, r3: None, init: false }
}

/// The call that programs `length` bytes, already copied to the algorithm's
/// data buffer, into the page at `address`.
pub fn program_page_call(algo: &FlashAlgorithm, address: u32, length: usize) -> (call: RoutineCall)
    ensures
        call == (RoutineCall {
            pc: algo.pc_program_page,
            r0: Some(address),
            r1: Some(length as u32),
            r2: Some(algo.begin_data),
            r3: None,
            init: false,
        }),
{
    RoutineCall {
        pc: algo.pc_program_page,
        r0: Some(address),
        r1: Some(#[verifier::truncate] (length as u32)),
        r2: Some(algo.begin_data),
        r3: None,
        init: false,
    }
}

/// The RAM address of page buffer `buffer_number`: the buffer's address when
/// the algorithm has such a buffer, else the refusal of the number.
pub fn page_buffer_address(algo: &FlashAlgorithm, buffer_number: usize) -> (r: Result<u32, FlashError>)
    ensures
        buffer_number < algo.page_buffers@.len() ==> r == Ok::<u32, FlashError>(algo.page_buffers@[buffer_number as int]),
        buffer_number >= algo.page_buffers@.len() ==> r == Err::<u32, FlashError>(FlashError::InvalidBufferNumber {
            n: buffer_number,
            max: algo.page_buffers@.len() as usize,
        }),
{
    if buffer_number >= algo.page_buffers.len() {
        return Err(
            FlashError::InvalidBufferNumber { n: buffer_number, max: algo.page_buffers.len() },
        );
    }
    Ok(algo.page_buffers[buffer_number])
}

/// The call that starts programming the page at `address` from page buffer
/// `buffer_number`, which holds a whole page; the call is not waited for.
pub fn buffered_program_call(algo: &FlashAlgorithm, address: u32, buffer_number: usize) -> (r: Result<RoutineCall, FlashError>)
    ensures
        buffer_number < algo.page_buffers@.len() ==> r == Ok::<RoutineCall, FlashError>(RoutineCall {
            pc: algo.pc_program_page,
            r0: Some(address),
            r1: Some(algo.flash_properties.page_size),
            r2: Some(algo.page_buffers@[buffer_number as int]),
            r3: None,
            init: false,
        }),
        buffer_number >= algo.page_buffers@.len() ==> r == Err::<RoutineCall, FlashError>(FlashError::InvalidBufferNumber {
            n: buffer_number,
            max: algo.page_buffers@.len() as usize,
        }),
{
    let buffer = match page_buffer_address(algo, buffer_number) {
        Ok(b) => b,
        Err(e) => {
            return Err(e);
        },
    };
    Ok(RoutineCall {
        pc: algo.pc_program_page,
        r0: Some(address),
        r1: Some(algo.flash_properties.page_size),
        r2: Some(buffer),
        r3: None,
        init: false,
    })
}

/// One step of programming a layout into flash.
#[derive(Clone, Debug)]
pub enum FlashStep {
    /// Erase the whole chip.
    EraseAll,
    /// Erase the sector at an address.
    EraseSector { address: u32 },
    /// Copy a page's bytes to RAM and program them, waiting for the end.
    ProgramPage { address: u32, data: Vec<u8> },
    /// Copy a page's bytes to a page buffer.
    LoadPageBuffer { data: Vec<u8>, buffer: usize },
    /// Wait for the program of the page at an address to end, and check its code.
    AwaitPage { address: u32 },
    /// Start programming the page at an address from a page buffer, without waiting.
    StartPageProgram { address: u32, buffer: usize },
}

/// A step as a mathematical value.
pub enum StepView {
    EraseAll,
    EraseSector { address: u32 },
    ProgramPage { address: u32, data: Seq<u8> },
    LoadPageBuffer { data: Seq<u8>, buffer: usize },
    AwaitPage { address: u32 },
    StartPageProgram { address: u32, buffer: usize },
}

impl View for FlashStep {
    type V = StepView;

    open spec fn view(&self) -> StepView {
        match self {
            FlashStep::EraseAll => StepView::EraseAll,
            FlashStep::EraseSector { address } => StepView::EraseSector { address: *address },
            FlashStep::ProgramPage { address, data } => StepView::ProgramPage { address: *address, data: data@ },
            FlashStep::LoadPageBuffer { data, buffer } => StepView::LoadPageBuffer { data: data@, buffer: *buffer },
            FlashStep::AwaitPage { address } => StepView::AwaitPage { address: *address },
            FlashStep::StartPageProgram { address, buffer } => StepView::StartPageProgram {
                address: *address,
                buffer: *buffer,
            },
        }
    }
}

pub open spec fn steps_view(steps: Seq<FlashStep>) -> Seq<StepView> {
    steps.map_values(|s: FlashStep| s@)
}

/// The steps of page `i` when programming through two page buffers: load the
/// page into buffer `i % 2`, wait for the page before it (whose program used
/// the other buffer), then start this page's program.
pub open spec fn buffered_page_steps(pages: Seq<PageView>, i: int) -> Seq<StepView> {
    let load = StepView::LoadPageBuffer { data: pages[i].data, buffer: (i % 2) as usize };
    let start = StepView::StartPageProgram { address: pages[i].address, buffer: (i % 2) as usize };
    if i == 0 {
        seq![load, start]
    } else {
        seq![load, StepView::AwaitPage { address: pages[i - 1].address }, start]
    }
}

/// The buffered steps of the first `n` pages.
pub open spec fn buffered_prefix(pages: Seq<PageView>, n: nat) -> Seq<StepView>
    decreases n,
{
    if n == 0 {
        Seq::empty()
    } else {
        buffered_prefix(pages, (n - 1) as nat) + buffered_page_steps(pages, n - 1)
    }
}

/// The steps that program `pages` through two page buffers; the last page's
/// program is waited for too.
pub open spec fn spec_buffered_steps(pages: Seq<PageView>) -> Seq<StepView> {
    if pages.len() == 0 {
        Seq::empty()
    } else {
        buffered_prefix(pages, pages.len()) + seq![StepView::AwaitPage { address: pages.last().address }]
    }
}

/// The steps that program a layout: erase the chip when asked and the
/// algorithm can, else each sector; then program each page, through
/// alternating page buffers when double buffering is used.
pub open spec fn spec_program_steps(
    algo: FlashAlgorithm,
    layout: LayoutView,
    do_chip_erase: bool,
    double_buffering: bool,
) -> Seq<StepView> {
    let erase = if do_chip_erase && algo.pc_erase_all is Some {
        seq![StepView::EraseAll]
    } else {
        layout.sectors.map_values(|s: FlashSector| StepView::EraseSector { address: s.address })
    };
    let program = if double_buffering {
        spec_buffered_steps(layout.pages)
    } else {
        layout.pages.map_values(|p: PageView| StepView::ProgramPage { address: p.address, data: p.data })
    };
    erase + program
}

/// A step that erases.
pub open spec fn is_erase(step: StepView) -> bool {
    step is EraseAll || step is EraseSector
}

/// Every sector is erased before any page is programmed: the steps begin
/// with one erase of the whole chip exactly when it is asked for and the
/// algorithm has an erase-all routine, and otherwise with an erase of each
/// sector of the layout, in order; no erase comes after them.
pub proof fn lemma_program_erases_first(
    algo: FlashAlgorithm,
    layout: LayoutView,
    do_chip_erase: bool,
    double_buffering: bool,
)
    ensures
        ({
            let steps = spec_program_steps(algo, layout, do_chip_erase, double_buffering);
            let erases = if do_chip_erase && algo.pc_erase_all is Some {
                1int
            } else {
                layout.sectors.len() as int
            };
            &&& erases <= steps.len()
            &&& do_chip_erase && algo.pc_erase_all is Some ==> steps[0] == StepView::EraseAll
            &&& !(do_chip_erase && algo.pc_erase_all is Some) ==> forall|i: int|
                0 <= i < layout.sectors.len() ==> steps[i] == (StepView::EraseSector {
                    address: (#[trigger] layout.sectors[i]).address,
                })
            &&& forall|m: int| erases <= m < steps.len() ==> !is_erase(#[trigger] steps[m])
        }),
{
    let steps = spec_program_steps(algo, layout, do_chip_erase, double_buffering);
    let chip = do_chip_erase && algo.pc_erase_all is Some;
    let erase = if chip {
        seq![StepView::EraseAll]
    } else {
        layout.sectors.map_values(|s: FlashSector| StepView::EraseSector { address: s.address })
    };
    let program = if double_buffering {
        spec_buffered_steps(layout.pages)
    } else {
        layout.pages.map_values(|p: PageView| StepView::ProgramPage { address: p.address, data: p.data })
    };
    assert(steps == erase + program);
    lemma_buffered_steps_program(layout.pages);
    assert forall|m: int| erase.len() <= m < steps.len() implies !is_erase(#[trigger] steps[m]) by {
        assert(steps[m] == program[m - erase.len()]);
    }
}

proof fn lemma_buffered_steps_program(pages: Seq<PageView>)
    ensures
        forall|m: int| 0 <= m < spec_buffered_steps(pages).len() ==> !is_erase(#[trigger] spec_buffered_steps(pages)[m]),
{
    lemma_buffered_prefix_program(pages, pages.len());
    if pages.len() > 0 {
        let prefix = buffered_prefix(pages, pages.len());
        let all = spec_buffered_steps(pages);
        assert forall|m: int| 0 <= m < all.len() implies !is_erase(#[trigger] all[m]) by {
            if m < prefix.len() {
                assert(all[m] == prefix[m]);
            }
        }
    }
}

proof fn lemma_buffered_prefix_program(pages: Seq<PageView>, n: nat)
    ensures
        forall|m: int| 0 <= m < buffered_prefix(pages, n).len() ==> !is_erase(#[trigger] buffered_prefix(pages, n)[m]),
    decreases n,
{
    if n > 0 {
        let m1 = (n - 1) as nat;
        lemma_buffered_prefix_program(pages, m1);
        let before = buffered_prefix(pages, m1);
        let here = buffered_page_steps(pages, m1 as int);
        let all = buffered_prefix(pages, n);
        assert(all == before + here);
        assert forall|m: int| 0 <= m < all.len() implies !is_erase(#[trigger] all[m]) by {
            if m < before.len() {
                assert(all[m] == before[m]);
            } else {
                assert(all[m] == here[m - before.len()]);
            }
        }
    }
}

/// What a step's completion code means: erasing and simple programming fail
/// with the routine's name, waiting for a page fails with that page's
/// address; loading and starting complete nothing.
pub open spec fn spec_step_result(step: StepView, code: u32) -> Result<(), FlashError> {
    match step {
        StepView::EraseAll => if code == 0 {
            Ok(())
        } else {
            Err(FlashError::RoutineCallFailed { name: "erase_all", errorcode: code })
        },
        StepView::EraseSector { .. } => if code == 0 {
            Ok(())
        } else {
            Err(FlashError::RoutineCallFailed { name: "erase_sector", errorcode: code })
        },
        StepView::ProgramPage { .. } => if code == 0 {
            Ok(())
        } else {
            Err(FlashError::RoutineCallFailed { name: "program_page", errorcode: code })
        },
        StepView::AwaitPage { address } => if code == 0 {
            Ok(())
        } else {
            Err(FlashError::PageWrite { page_address: address, error_code: code })
        },
        StepView::LoadPageBuffer { .. } => Ok(()),
        StepView::StartPageProgram { .. } => Ok(()),
    }
}

/// Decides on a performed step, given the code that the routine it waited
/// for returned (zero where it waited for none).
pub fn step_result(step: &FlashStep, code: u32) -> (r: Result<(), FlashError>)
    ensures
        r == spec_step_result(step@, code),
{
    match step {
        FlashStep::EraseAll => routine_result("erase_all", code),
        FlashStep::EraseSector { .. } => routine_result("erase_sector", code),
        FlashStep::ProgramPage { .. } => routine_result("program_page", code),
        FlashStep::AwaitPage { address } => page_write_result(*address, code),
        FlashStep::LoadPageBuffer { .. } => Ok(()),
        FlashStep::StartPageProgram { .. } => Ok(()),
    }
}

/// How running `steps` through `execute` ends when it gives `answers`, one to
/// each step in turn: the first failure, from `execute` itself or from the
/// step's code, else success; `None` when the answers run out first or are
/// not answers that `execute` can give.
pub open spec fn steps_run<F: Fn(&FlashStep) -> Result<u32, FlashError>>(
    execute: F,
    steps: Seq<FlashStep>,
    answers: Seq<Result<u32, FlashError>>,
) -> Option<Result<(), FlashError>>
    decreases steps.len(),
{
    if steps.len() == 0 {
        Some(Ok(()))
    } else if answers.len() == 0 || !call_ensures(execute, (&steps[0],), answers[0]) {
        None
    } else {
        match answers[0] {
            Err(e) => Some(Err(e)),
            Ok(code) => match spec_step_result(steps[0]@, code) {
                Err(e) => Some(Err(e)),
                Ok(_) => steps_run(execute, steps.drop_first(), answers.drop_first()),
            },
        }
    }
}

/// Performs `steps` in order through `execute`, which carries a step out on
/// the target and gives the code of the routine it waited for; stops at the
/// first failure.
pub fn run_steps<F: Fn(&FlashStep) -> Result<u32, FlashError>>(steps: &Vec<FlashStep>, execute: &F) -> (r: Result<(), FlashError>)
    requires
        forall|s: &FlashStep| #[trigger] call_requires(*execute, (s,)),
    ensures
        exists|answers: Seq<Result<u32, FlashError>>| #[trigger] steps_run(*execute, steps@, answers) == Some(r),
{
    let ghost ex = *execute;
    let ghost done: Seq<Result<u32, FlashError>> = Seq::empty();
    proof {
        assert forall|rest: Seq<Result<u32, FlashError>>|
            #[trigger] steps_run(ex, steps@, done + rest) == steps_run(ex, steps@.skip(0), rest) by {
            assert(done + rest =~= rest);
            assert(steps@.skip(0) =~= steps@);
        }
    }
    let mut i: usize = 0;
    while i < steps.len()
        invariant
            0 <= i <= steps@.len(),
            ex == *execute,
            forall|s: &FlashStep| #[trigger] call_requires(*execute, (s,)),
            forall|rest: Seq<Result<u32, FlashError>>|
                #[trigger] steps_run(ex, steps@, done + rest) == steps_run(ex, steps@.skip(i as int), rest),
        decreases steps@.len() - i,
    {
        let step = &steps[i];
        let answer = execute(step);
        proof {
            assert(steps@.skip(i as int)[0] == steps@[i as int]);
            assert(steps@.skip(i as int).drop_first() =~= steps@.skip(i + 1));
        }
        match answer {
            Err(e) => {
                proof {
                    assert(steps_run(ex, steps@.skip(i as int), seq![answer]) == Some(Err::<(), FlashError>(e)));
                    assert(steps_run(ex, steps@, done + seq![answer]) == Some(Err::<(), FlashError>(e)));
                }
                return Err(e);
            },
            Ok(code) => {
                let outcome = step_result(step, code);
                match outcome {
                    Err(e) => {
                        proof {
                            assert(steps_run(ex, steps@.skip(i as int), seq![answer]) == Some(Err::<(), FlashError>(e)));
                            assert(steps_run(ex, steps@, done + seq![answer]) == Some(Err::<(), FlashError>(e)));
                        }
                        return Err(e);
                    },
                    Ok(()) => {
                        proof {
                            assert forall|rest: Seq<Result<u32, FlashError>>|
                                #[trigger] steps_run(ex, steps@, done.push(answer) + rest)
                                    == steps_run(ex, steps@.skip(i + 1), rest) by {
                                let longer = seq![answer] + rest;
                                assert(done.push(answer) + rest =~= done + longer);
                                assert(longer.drop_first() =~= rest);
                                assert(longer[0] == answer);
                            }
                            done = done.push(answer);
                        }
                    },
                }
            },
        }
        i = i + 1;
    }
    proof {
        assert(steps@.skip(steps@.len() as int).len() == 0);
        assert(steps_run(ex, steps@, done + Seq::empty()) == Some(Ok::<(), FlashError>(())));
        assert(done + Seq::<Result<u32, FlashError>>::empty() =~= done);
    }
    Ok(())
}

/// A run ends in success only when every step was carried out and every
/// code it gave was accepted.
pub proof fn lemma_run_ok_checks_every_step<F: Fn(&FlashStep) -> Result<u32, FlashError>>(
    execute: F,
    steps: Seq<FlashStep>,
    answers: Seq<Result<u32, FlashError>>,
)
    requires
        steps_run(execute, steps, answers) == Some(Ok::<(), FlashError>(())),
    ensures
        answers.len() >= steps.len(),
        forall|i: int|
            0 <= i < steps.len() ==> (#[trigger] answers[i] matches Ok(code) && (spec_step_result(steps[i]@, code) is Ok)),
    decreases steps.len(),
{
    if steps.len() > 0 {
        lemma_run_ok_checks_every_step(execute, steps.drop_first(), answers.drop_first());
        assert forall|i: int| 0 <= i < steps.len() implies (#[trigger] answers[i] matches Ok(code)
            && (spec_step_result(steps[i]@, code) is Ok)) by {
            if i > 0 {
                assert(answers.drop_first()[i - 1] == answers[i]);
                assert(steps.drop_first()[i - 1] == steps[i]);
            }
        }
    }
}

/// Where the buffered steps put the load of page `k`.
pub open spec fn buffered_load_index(k: int) -> int {
    if k == 0 { 0 } else { 3 * k - 1 }
}

/// Where the buffered steps put the start of page `k`'s program.
pub open spec fn buffered_start_index(k: int) -> int {
    if k == 0 { 1 } else { 3 * k + 1 }
}

/// Where the buffered steps of `n` pages put the wait for page `k`.
pub open spec fn buffered_await_index(n: int, k: int) -> int {
    if k + 1 < n { 3 * k + 3 } else { 3 * k + 2 }
}

proof fn lemma_buffered_prefix(pages: Seq<PageView>, n: nat)
    requires
        n <= pages.len(),
    ensures
        buffered_prefix(pages, n).len() == (if n == 0 { 0 } else { 3 * n - 1 }),
        forall|k: int| 0 <= k < n ==> {
            &&& buffered_prefix(pages, n)[#[trigger] buffered_load_index(k)]
                == (StepView::LoadPageBuffer { data: pages[k].data, buffer: (k % 2) as usize })
            &&& buffered_prefix(pages, n)[buffered_start_index(k)]
                == (StepView::StartPageProgram { address: pages[k].address, buffer: (k % 2) as usize })
        },
        forall|k: int| 0 <= k && k + 1 < n ==> buffered_prefix(pages, n)[#[trigger] buffered_await_index(n as int, k)]
            == (StepView::AwaitPage { address: pages[k].address }),
    decreases n,
{
    if n > 0 {
        let m = (n - 1) as nat;
        lemma_buffered_prefix(pages, m);
        let before = buffered_prefix(pages, m);
        let here = buffered_page_steps(pages, m as int);
        assert(buffered_prefix(pages, n) == before + here);
        assert forall|k: int| 0 <= k < n implies {
            &&& buffered_prefix(pages, n)[#[trigger] buffered_load_index(k)]
                == (StepView::LoadPageBuffer { data: pages[k].data, buffer: (k % 2) as usize })
            &&& buffered_prefix(pages, n)[buffered_start_index(k)]
                == (StepView::StartPageProgram { address: pages[k].address, buffer: (k % 2) as usize })
        } by {
            if k < m {
                assert(buffered_load_index(k) < before.len());
                assert(buffered_start_index(k) < before.len());
            }
        }
        assert forall|k: int| 0 <= k && k + 1 < n implies buffered_prefix(pages, n)[#[trigger] buffered_await_index(
            n as int,
            k,
        )] == (StepView::AwaitPage { address: pages[k].address }) by {
            if k + 1 < m {
                assert(buffered_await_index(m as int, k) == buffered_await_index(n as int, k));
                assert(buffered_await_index(n as int, k) < before.len());
            }
        }
    }
}

/// The plan of double-buffered programming: for every page, its load comes
/// before the start of its program, the start before the wait for it, and
/// the wait before the next load into the same buffer; nothing else follows
/// the wait for the last page.
pub proof fn lemma_buffered_plan(pages: Seq<PageView>, k: int)
    requires
        0 <= k < pages.len(),
    ensures
        spec_buffered_steps(pages).len() == 3 * pages.len(),
        spec_buffered_steps(pages)[buffered_load_index(k)]
            == (StepView::LoadPageBuffer { data: pages[k].data, buffer: (k % 2) as usize }),
        spec_buffered_steps(pages)[buffered_start_index(k)]
            == (StepView::StartPageProgram { address: pages[k].address, buffer: (k % 2) as usize }),
        spec_buffered_steps(pages)[buffered_await_index(pages.len() as int, k)]
            == (StepView::AwaitPage { address: pages[k].address }),
        buffered_load_index(k) < buffered_start_index(k) < buffered_await_index(pages.len() as int, k),
        k + 2 < pages.len() ==> buffered_await_index(pages.len() as int, k) < buffered_load_index(k + 2),
        k + 1 == pages.len() ==> buffered_await_index(pages.len() as int, k) == spec_buffered_steps(pages).len() - 1,
{
    let n = pages.len();
    lemma_buffered_prefix(pages, n);
    let prefix = buffered_prefix(pages, n);
    assert(spec_buffered_steps(pages) == prefix + seq![StepView::AwaitPage { address: pages.last().address }]);
    assert(buffered_load_index(k) < prefix.len());
    assert(buffered_start_index(k) < prefix.len());
    if k + 1 < n {
        assert(buffered_await_index(n as int, k) < prefix.len());
    }
}

/// Appends to `steps` the buffered steps of `pages`.
#[verifier::loop_isolation(false)]
fn push_buffered_steps(steps: &mut Vec<FlashStep>, pages: &[FlashPage])
    ensures
        steps_view(final(steps)@) == steps_view(old(steps)@) + spec_buffered_steps(crate::builder::pages_view(pages@)),
{
    let ghost pv = crate::builder::pages_view(pages@);
    let ghost start = steps_view(steps@);
    assert(start + buffered_prefix(pv, 0) =~= start);
    let mut current_buf: usize = 0;
    let mut j: usize = 0;
    while j < pages.len()
        invariant
            0 <= j <= pages@.len(),
            pv == crate::builder::pages_view(pages@),
            steps_view(steps@) =~= start + buffered_prefix(pv, j as nat),
            current_buf == (j % 2) as usize,
        decreases pages@.len() - j,
    {
        let page = &pages[j];
        assert(pv[j as int] == page@);
        let data = page.data.clone();
        assert(data@ =~= page.data@);
        let ghost before = steps@;
        steps.push(FlashStep::LoadPageBuffer { data: data, buffer: current_buf });
        if j > 0 {
            assert(pv[j - 1] == pages@[j - 1]@);
            steps.push(FlashStep::AwaitPage { address: pages[j - 1].address });
        }
        steps.push(FlashStep::StartPageProgram { address: page.address, buffer: current_buf });
        assert(steps_view(steps@) =~= steps_view(before) + buffered_page_steps(pv, j as int));
        assert(buffered_prefix(pv, (j + 1) as nat) == buffered_prefix(pv, j as nat) + buffered_page_steps(pv, j as int));
        if current_buf == 1 {
            current_buf = 0;
        } else {
            current_buf = 1;
        }
        j = j + 1;
    }
    if pages.len() > 0 {
        let ghost before = steps@;
        let last = pages.len() - 1;
        assert(pv.last() == pages@[last as int]@);
        steps.push(FlashStep::AwaitPage { address: pages[last].address });
        assert(steps_view(steps@) =~= steps_view(before).push(StepView::AwaitPage { address: pv.last().address }));
    } else {
        assert(pv.len() == 0);
    }
}

/// Controls the flash of a chip through a flash algorithm.
pub struct Flasher<'a> {
    flash_algorithm: &'a FlashAlgorithm,
    region: &'a FlashRegion,
    double_buffering_supported: bool,
}

impl<'a> Flasher<'a> {
    pub closed spec fn spec_algorithm(&self) -> FlashAlgorithm {
        *self.flash_algorithm
    }

    pub closed spec fn spec_region(&self) -> FlashRegion {
        *self.region
    }

    pub closed spec fn spec_double_buffering_supported(&self) -> bool {
        self.double_buffering_supported
    }

    /// A flasher for `region` through `flash_algorithm`; double buffering starts unsupported.
    pub fn new(flash_algorithm: &'a FlashAlgorithm, region: &'a FlashRegion) -> (flasher: Self)
        ensures
            flasher.spec_algorithm() == *flash_algorithm,
            flasher.spec_region() == *region,
            !flasher.spec_double_buffering_supported(),
    {
        Flasher { flash_algorithm, region, double_buffering_supported: false }
    }

    pub fn flash_algorithm(&self) -> (algo: &FlashAlgorithm)
        ensures
            *algo == self.spec_algorithm(),
    {
        self.flash_algorithm
    }

    pub fn double_buffering_supported(&self) -> (supported: bool)
        ensures
            supported == self.spec_double_buffering_supported(),
    {
        self.double_buffering_supported
    }

    /// The address the init routine is given: the one asked for, else the
    /// start of the region.
    pub fn init_address(&self, address: Option<u32>) -> (r: u32)
        ensures
            r == match address {
                Some(a) => a,
                None => self.spec_region().range.start,
            },
    {
        match address {
            Some(a) => a,
            None => self.region.range.start,
        }
    }

    /// The steps that program `flash_layout`. Chip erase is used only when
    /// asked for and the algorithm has an erase-all routine; double buffering
    /// only when asked for and supported.
    #[verifier::loop_isolation(false)]
    pub fn program(&self, flash_layout: &FlashLayout, do_chip_erase: bool, enable_double_buffering: bool) -> (steps: Vec<FlashStep>)
        ensures
            steps_view(steps@) == spec_program_steps(
                self.spec_algorithm(),
                flash_layout@,
                do_chip_erase,
                self.spec_double_buffering_supported() && enable_double_buffering,
            ),
    {
        let mut steps: Vec<FlashStep> = Vec::new();
        let chip_erase = do_chip_erase && self.flash_algorithm.pc_erase_all.is_some();
        let sectors = flash_layout.sectors();
        let pages = flash_layout.pages();
        let ghost erase = if chip_erase {
            seq![StepView::EraseAll]
        } else {
            flash_layout@.sectors.map_values(|s: FlashSector| StepView::EraseSector { address: s.address })
        };
        if chip_erase {
            steps.push(FlashStep::EraseAll);
            assert(steps_view(steps@) =~= erase);
        } else {
            let mut i: usize = 0;
            while i < sectors.len()
                invariant
                    0 <= i <= sectors@.len(),
                    sectors@ == flash_layout@.sectors,
                    !chip_erase,
                    steps_view(steps@) =~= erase.take(i as int),
                decreases sectors@.len() - i,
            {
                let ghost before = steps@;
                steps.push(FlashStep::EraseSector { address: sectors[i].address });
                assert(steps@ == before.push(FlashStep::EraseSector { address: sectors@[i as int].address }));
                assert(erase[i as int] == StepView::EraseSector { address: sectors@[i as int].address });
                assert(steps_view(steps@) =~= steps_view(before).push(erase[i as int]));
                assert(erase.take(i + 1) =~= erase.take(i as int).push(erase[i as int]));
                assert(steps_view(steps@) =~= erase.take(i + 1));
                i = i + 1;
            }
            assert(erase.take(sectors@.len() as int) =~= erase);
        }
        let double = self.double_buffering_supported && enable_double_buffering;
        if double {
            push_buffered_steps(&mut steps, pages);
            return steps;
        }
        let ghost program = flash_layout@.pages.map_values(
            |p: PageView| StepView::ProgramPage { address: p.address, data: p.data },
        );
        let mut j: usize = 0;
        while j < pages.len()
            invariant
                0 <= j <= pages@.len(),
                crate::builder::pages_view(pages@) == flash_layout@.pages,
                steps_view(steps@) =~= erase + program.take(j as int),
            decreases pages@.len() - j,
        {
            let page = &pages[j];
            assert(flash_layout@.pages[j as int] == page@);
            let data = page.data.clone();
            assert(data@ =~= page.data@);
            let ghost before = steps@;
            steps.push(FlashStep::ProgramPage { address: page.address, data: data });
            assert(steps_view(steps@) =~= steps_view(before).push(program[j as int]));
            assert(program.take(j + 1) =~= program.take(j as int).push(program[j as int]));
            j = j + 1;
        }
        assert(program.take(pages@.len() as int) =~= program);
        steps
    }

    /// The steps that program the pages of `flash_layout` through two page
    /// buffers: each page is loaded while the one before it is programmed,
    /// and every page's program is waited for and its code checked.
    pub fn program_double_buffer(&self, flash_layout: &FlashLayout) -> (steps: Vec<FlashStep>)
        ensures
            steps_view(steps@) == spec_buffered_steps(flash_layout@.pages),
    {
        let mut steps: Vec<FlashStep> = Vec::new();
        push_buffered_steps(&mut steps, flash_layout.pages());
        assert(steps_view(Seq::<FlashStep>::empty()) =~= Seq::<StepView>::empty());
        assert(Seq::<StepView>::empty() + spec_buffered_steps(flash_layout@.pages) =~= spec_buffered_steps(flash_layout@.pages));
        steps
    }

    /// Checks that `data` at `address` lies in the region, lays it out so
    /// that the bytes of its pages that it does not write keep what
    /// `flash_contents` read from the flash, and returns the steps that
    /// program it.
    pub fn flash_block(
        &self,
        address: u32,
        data: &[u8],
        flash_contents: &RestoreFill,
        do_chip_erase: bool,
    ) -> (result: Result<Vec<FlashStep>, FlashError>)
        requires
            address + data@.len() <= u32::MAX,
            self.spec_algorithm().valid(),
        ensures
            !spec_contains_range(
                self.spec_region().range,
                AddressRange { start: address, end: (address + data@.len()) as u32 },
            ) ==> result == Err::<Vec<FlashStep>, FlashError>(FlashError::AddressNotInRegion {
                address,
                region: self.spec_region(),
            }),
            spec_contains_range(
                self.spec_region().range,
                AddressRange { start: address, end: (address + data@.len()) as u32 },
            ) ==> match spec_layout(self.spec_algorithm(), *flash_contents, seq![(address, data@)]) {
                Err(e) => result == Err::<Vec<FlashStep>, FlashError>(e),
                Ok(layout) => result matches Ok(steps) && steps_view(steps@) == spec_program_steps(
                    self.spec_algorithm(),
                    layout,
                    do_chip_erase,
                    false,
                ),
            },
    {
        let end = address + data.len() as u32;
        if !contains_range(&self.region.range, &AddressRange { start: address, end }) {
            return Err(FlashError::AddressNotInRegion { address, region: *self.region });
        }
        let mut fb = FlashBuilder::new();
        match fb.add_data(address, data) {
            Err(e) => {
                return Err(e);
            },
            Ok(()) => {},
        }
        assert(fb.writes() =~= seq![(address, data@)]);
        assert(fb.wf()) by {
            assert(forall|i: int| !#[trigger] crate::builder::overlaps_at(fb.writes(), i));
        }
        let layout = match fb.build_sectors_and_pages(self.flash_algorithm, flash_contents) {
            Err(e) => {
                return Err(e);
            },
            Ok(layout) => layout,
        };
        Ok(self.program(&layout, do_chip_erase, false))
    }
}

} // verus!
