//! RISC-V debug: debug-module registers and the abstract-command protocol.

use vstd::prelude::*;

verus! {

/// The `dmcontrol` register of the debug module, at address 0x10.
#[derive(Clone, Copy, Debug, PartialEq, Eq, Structural)]
pub struct Dmcontrol(pub u32);

/// The read-only `dmstatus` register, at address 0x11.
#[derive(Clone, Copy, Debug, PartialEq, Eq, Structural)]
pub struct Dmstatus(pub u32);

/// The `abstractcs` register, at address 0x16.
#[derive(Clone, Copy, Debug, PartialEq, Eq, Structural)]
pub struct Abstractcs(pub u32);

/// The "access register" abstract command, written to `command` at address 0x17.
#[derive(Clone, Copy, Debug, PartialEq, Eq, Structural)]
pub struct AccessRegisterCommand(pub u32);

/// `v` with bit `n` set to `value`.
pub open spec fn with_bit(v: u32, n: u32, value: bool) -> u32 {
    if value {
        v | (1u32 << n)
    } else {
        v & !(1u32 << n)
    }
}

/// Bit `n` of `v`.
pub open spec fn bit_of(v: u32, n: u32) -> bool {
    v & (1u32 << n) != 0
}

fn set_bit(v: u32, n: u32, value: bool) -> (r: u32)
    requires
        n < 32,
    ensures
        r == with_bit(v, n, value),
{
    if value {
        v | (1u32 << n)
    } else {
        v & !(1u32 << n)
    }
}

impl Dmcontrol {
    /// Requests the selected harts to halt (bit 31).
    pub fn set_haltreq(&mut self, value: bool)
        ensures
            final(self).0 == with_bit(old(self).0, 31, value),
    {
        self.0 = set_bit(self.0, 31, value);
    }

    /// Requests the selected harts to resume (bit 30).
    pub fn set_resumereq(&mut self, value: bool)
        ensures
            final(self).0 == with_bit(old(self).0, 30, value),
    {
        self.0 = set_bit(self.0, 30, value);
    }

    /// Acknowledges that the harts have been reset (bit 28).
    pub fn set_ackhavereset(&mut self, value: bool)
        ensures
            final(self).0 == with_bit(old(self).0, 28, value),
    {
        self.0 = set_bit(self.0, 28, value);
    }

    /// Keeps the debug module active (bit 0).
    pub fn set_dmactive(&mut self, value: bool)
        ensures
            final(self).0 == with_bit(old(self).0, 0, value),
    {
        self.0 = set_bit(self.0, 0, value);
    }
}

impl Dmstatus {
    /// All selected harts are halted (bit 9).
    pub fn allhalted(&self) -> (r: bool)
        ensures
            r == bit_of(self.0, 9),
    {
        self.0 & (1u32 << 9u32) != 0
    }
}

impl Abstractcs {
    /// An abstract command is running (bit 12).
    pub fn busy(&self) -> (r: bool)
        ensures
            r == bit_of(self.0, 12),
    {
        self.0 & (1u32 << 12u32) != 0
    }

    /// The error of the last abstract command (bits 10 to 8).
    pub fn cmderr(&self) -> (r: u32)
        ensures
            r == (self.0 >> 8u32) & 7u32,
    {
        (self.0 >> 8u32) & 7u32
    }

    /// Writes the error field (bits 10 to 8); writing ones clears the error.
    pub fn set_cmderr(&mut self, value: u32)
        ensures
            final(self).0 == (old(self).0 & !(7u32 << 8u32)) | ((value & 7u32) << 8u32),
    {
        self.0 = (self.0 & !(7u32 << 8u32)) | ((value & 7u32) << 8u32);
    }
}

impl AccessRegisterCommand {
    /// The command type (bits 31 to 24); zero is "access register".
    pub fn set_cmd_type(&mut self, value: u32)
        ensures
            final(self).0 == (old(self).0 & !(0xffu32 << 24u32)) | ((value & 0xffu32) << 24u32),
    {
        self.0 = (self.0 & !(0xffu32 << 24u32)) | ((value & 0xffu32) << 24u32);
    }

    /// The size of the access (bits 22 to 20); 2 is 32 bits.
    pub fn set_aarsize(&mut self, value: u32)
        ensures
            final(self).0 == (old(self).0 & !(7u32 << 20u32)) | ((value & 7u32) << 20u32),
    {
        self.0 = (self.0 & !(7u32 << 20u32)) | ((value & 7u32) << 20u32);
    }

    /// Run the program buffer after the transfer (bit 18).
    pub fn set_postexec(&mut self, value: bool)
        ensures
            final(self).0 == with_bit(old(self).0, 18, value),
    {
        self.0 = set_bit(self.0, 18, value);
    }

    /// Transfer between the register and `data0` (bit 17).
    pub fn set_transfer(&mut self, value: bool)
        ensures
            final(self).0 == with_bit(old(self).0, 17, value),
    {
        self.0 = set_bit(self.0, 17, value);
    }

    /// Write the register from `data0` rather than read it (bit 16).
    pub fn set_write(&mut self, value: bool)
        ensures
            final(self).0 == with_bit(old(self).0, 16, value),
    {
        self.0 = set_bit(self.0, 16, value);
    }

    /// The register number (bits 15 to 0).
    pub fn set_regno(&mut self, value: u32)
        ensures
            final(self).0 == (old(self).0 & !0xffffu32) | (value & 0xffffu32),
    {
        self.0 = (self.0 & !0xffffu32) | (value & 0xffffu32);
    }
}

/// The command that reads register `regno` into `data0`: type 0, 32-bit size,
/// transfer set.
pub open spec fn spec_read_command(regno: u32) -> u32 {
    (2u32 << 20u32) | (1u32 << 17u32) | (regno & 0xffffu32)
}

/// The command that writes register `regno` from `data0`: as a read, with the
/// write bit set.
pub open spec fn spec_write_command(regno: u32) -> u32 {
    spec_read_command(regno) | (1u32 << 16u32)
}

/// The command word that reads register `regno`.
pub fn register_read_command(regno: u32) -> (command: u32)
    ensures
        command == spec_read_command(regno),
{
    let mut command = AccessRegisterCommand(0);
    command.set_cmd_type(0);
    command.set_transfer(true);
    command.set_aarsize(2);
    command.set_regno(regno);
    let v = command.0;
    assert(v == spec_read_command(regno)) by (bit_vector)
        requires
            v == (((((0u32 & !(0xffu32 << 24u32)) | ((0u32 & 0xffu32) << 24u32)) | (1u32 << 17u32))
                & !(7u32 << 20u32)) | ((2u32 & 7u32) << 20u32)) & !0xffffu32 | (regno & 0xffffu32),
    ;
    command.0
}

/// The command word that writes register `regno`.
pub fn register_write_command(regno: u32) -> (command: u32)
    ensures
        command == spec_write_command(regno),
{
    let mut command = AccessRegisterCommand(0);
    command.set_cmd_type(0);
    command.set_transfer(true);
    command.set_write(true);
    command.set_aarsize(2);
    command.set_regno(regno);
    let v = command.0;
    assert(v == spec_write_command(regno)) by (bit_vector)
        requires
            v == ((((((0u32 & !(0xffu32 << 24u32)) | ((0u32 & 0xffu32) << 24u32)) | (1u32
                << 17u32)) | (1u32 << 16u32)) & !(7u32 << 20u32)) | ((2u32 & 7u32) << 20u32))
                & !0xffffu32 | (regno & 0xffffu32),
    ;
    command.0
}

/// The command word that only runs the program buffer.
pub fn postexec_command() -> (command: u32)
    ensures
        command == 1u32 << 18u32,
{
    let mut command = AccessRegisterCommand(0);
    command.set_postexec(true);
    assert(0u32 | (1u32 << 18u32) == 1u32 << 18u32) by (bit_vector);
    command.0
}

/// `csrrs s0, csr, x0`: reads the control and status register `address`
/// (its low 12 bits) into `s0`.
pub fn csrrs_command(address: u16) -> (instruction: u32)
    ensures
        instruction == 0b00000_010_01000_1110011u32 | (((address as u32) & 0xfffu32) << 20u32),
{
    let mut instruction: u32 = 0b_00000_010_01000_1110011;
    instruction = instruction | (((address as u32) & 0xfff) << 20);
    instruction
}

/// `ebreak`: returns control to the debugger.
pub fn ebreak_command() -> (instruction: u32)
    ensures
        instruction == 0b000000000001_00000_000_00000_1110011u32,
{
    0b000000000001_00000_000_00000_1110011
}

/// Why an abstract command or a halt failed.
#[derive(Clone, Copy, Debug, PartialEq, Eq, Structural)]
pub enum RiscvError {
    /// The command was still running after the last poll.
    AbstractCommandBusy,
    /// The command ended with this error code.
    AbstractCommandError(u32),
    /// The harts did not halt within the polls.
    HaltTimeout,
}

/// A state of running an abstract command.
#[derive(Clone, Copy, Debug, PartialEq, Eq, Structural)]
pub enum CommandState {
    /// `dmcontrol` is to be prepared.
    Start,
    /// `abstractcs` is to be read before the command.
    ReadStatus,
    /// The status read before the command has arrived.
    GotStatus,
    /// The old error was cleared; the command is to be written.
    WriteCommand,
    /// Status poll number `polls` (from 1) is being read.
    Polling { polls: u32 },
    /// The command is over.
    Done,
}

/// What the debugger does next.
#[derive(Clone, Copy, Debug, PartialEq, Eq)]
pub enum DmAction {
    Write { address: u32, value: u32 },
    Read { address: u32 },
    Finish(Result<(), RiscvError>),
}

/// The number of status polls after a command is written.
pub const ABSTRACT_COMMAND_POLLS: u32 = 10;

/// The `dmcontrol` value written before a command: no halt or resume
/// request, reset acknowledged, module active.
pub open spec fn command_dmcontrol() -> u32 {
    (1u32 << 28u32) | 1u32
}

/// The value written to `abstractcs` to clear an old error.
pub open spec fn clear_cmderr() -> u32 {
    7u32 << 8u32
}

/// One step of running `command`: from a state and the value read by the
/// last action (when it read), the next state and action.
pub open spec fn spec_command_step(command: u32, state: CommandState, read: u32) -> (CommandState, DmAction) {
    match state {
        CommandState::Start => (
            CommandState::ReadStatus,
            DmAction::Write { address: 0x10, value: command_dmcontrol() },
        ),
        CommandState::ReadStatus => (CommandState::GotStatus, DmAction::Read { address: 0x16 }),
        CommandState::GotStatus => if (read >> 8u32) & 7u32 != 0 {
            (CommandState::WriteCommand, DmAction::Write { address: 0x16, value: clear_cmderr() })
        } else {
            (CommandState::Polling { polls: 0 }, DmAction::Write { address: 0x17, value: command })
        },
        CommandState::WriteCommand => (
            CommandState::Polling { polls: 0 },
            DmAction::Write { address: 0x17, value: command },
        ),
        CommandState::Polling { polls } => if polls == 0 {
            (CommandState::Polling { polls: 1 }, DmAction::Read { address: 0x16 })
        } else if bit_of(read, 12) && polls < ABSTRACT_COMMAND_POLLS {
            (CommandState::Polling { polls: (polls + 1) as u32 }, DmAction::Read { address: 0x16 })
        } else if bit_of(read, 12) {
            (CommandState::Done, DmAction::Finish(Err(RiscvError::AbstractCommandBusy)))
        } else if (read >> 8u32) & 7u32 != 0 {
            (
                CommandState::Done,
                DmAction::Finish(Err(RiscvError::AbstractCommandError((read >> 8u32) & 7u32))),
            )
        } else {
            (CommandState::Done, DmAction::Finish(Ok(())))
        },
        CommandState::Done => (CommandState::Done, DmAction::Finish(Ok(()))),
    }
}

/// Runs an abstract command step by step: write `dmcontrol`, read
/// `abstractcs` and clear an old error, write the command, then poll
/// `abstractcs` up to ten times until it is no longer busy, and report a
/// command still busy or ending in error.
pub fn execute_abstract_command_step(command: u32, state: CommandState, read: u32) -> (r: (CommandState, DmAction))
    requires
        state matches CommandState::Polling { polls } ==> polls <= ABSTRACT_COMMAND_POLLS,
    ensures
        r == spec_command_step(command, state, read),
        r.0 matches CommandState::Polling { polls } ==> polls <= ABSTRACT_COMMAND_POLLS,
{
    match state {
        CommandState::Start => {
            let mut dmcontrol = Dmcontrol(0);
            dmcontrol.set_haltreq(false);
            dmcontrol.set_resumereq(false);
            dmcontrol.set_ackhavereset(true);
            dmcontrol.set_dmactive(true);
            let v = dmcontrol.0;
            assert(v == command_dmcontrol()) by (bit_vector)
                requires
                    v == ((((0u32 & !(1u32 << 31u32)) & !(1u32 << 30u32)) | (1u32 << 28u32))
                        | (1u32 << 0u32)),
            ;
            (CommandState::ReadStatus, DmAction::Write { address: 0x10, value: dmcontrol.0 })
        },
        CommandState::ReadStatus => (CommandState::GotStatus, DmAction::Read { address: 0x16 }),
        CommandState::GotStatus => {
            let status = Abstractcs(read);
            if status.cmderr() != 0 {
                let mut clear = Abstractcs(0);
                clear.set_cmderr(0x7);
                let v = clear.0;
                assert(v == clear_cmderr()) by (bit_vector)
                    requires
                        v == (0u32 & !(7u32 << 8u32)) | ((7u32 & 7u32) << 8u32),
                ;
                (CommandState::WriteCommand, DmAction::Write { address: 0x16, value: clear.0 })
            } else {
                (CommandState::Polling { polls: 0 }, DmAction::Write { address: 0x17, value: command })
            }
        },
        CommandState::WriteCommand => (
            CommandState::Polling { polls: 0 },
            DmAction::Write { address: 0x17, value: command },
        ),
        CommandState::Polling { polls } => {
            let status = Abstractcs(read);
            if polls == 0 {
                (CommandState::Polling { polls: 1 }, DmAction::Read { address: 0x16 })
            } else if status.busy() && polls < ABSTRACT_COMMAND_POLLS {
                (CommandState::Polling { polls: polls + 1 }, DmAction::Read { address: 0x16 })
            } else if status.busy() {
                (CommandState::Done, DmAction::Finish(Err(RiscvError::AbstractCommandBusy)))
            } else if status.cmderr() != 0 {
                (
                    CommandState::Done,
                    DmAction::Finish(Err(RiscvError::AbstractCommandError(status.cmderr()))),
                )
            } else {
                (CommandState::Done, DmAction::Finish(Ok(())))
            }
        },
        CommandState::Done => (CommandState::Done, DmAction::Finish(Ok(()))),
    }
}

/// A bound on the actions that remain in a run of an abstract command,
/// counting the one that finishes it.
pub open spec fn command_actions_left(state: CommandState) -> nat {
    match state {
        CommandState::Start => 15,
        CommandState::ReadStatus => 14,
        CommandState::GotStatus => 13,
        CommandState::WriteCommand => 12,
        CommandState::Polling { polls } => if polls <= ABSTRACT_COMMAND_POLLS {
            (ABSTRACT_COMMAND_POLLS + 1 - polls) as nat
        } else {
            1
        },
        CommandState::Done => 1,
    }
}

/// A run of an abstract command always ends: every step either finishes the
/// run or brings it closer to its end, so that, whatever the debug module
/// answers, a run takes at most 15 actions.
pub proof fn lemma_command_step_progress(command: u32, state: CommandState, read: u32)
    requires
        state matches CommandState::Polling { polls } ==> polls <= ABSTRACT_COMMAND_POLLS,
    ensures
        command_actions_left(state) <= 15,
        spec_command_step(command, state, read).1 is Finish || command_actions_left(
            spec_command_step(command, state, read).0,
        ) < command_actions_left(state),
{
}

/// A status poll after the command that finds `abstractcs` no longer busy
/// (bit 12 clear) ends the run: in success exactly when the error field,
/// bits 10 to 8, is zero, and otherwise with that error code.
pub proof fn lemma_poll_reports_command_error(command: u32, polls: u32, read: u32)
    requires
        1 <= polls <= ABSTRACT_COMMAND_POLLS,
        (read / 0x1000) % 2 == 0,
    ensures
        spec_command_step(command, CommandState::Polling { polls }, read) == (
            CommandState::Done,
            DmAction::Finish(
                if (read / 0x100) % 8 == 0 {
                    Ok(())
                } else {
                    Err(RiscvError::AbstractCommandError(((read / 0x100) % 8) as u32))
                },
            ),
        ),
{
    assert(!bit_of(read, 12) && (read >> 8u32) & 7u32 == (read / 0x100) % 8) by (bit_vector)
        requires
            (read / 0x1000) % 2 == 0,
    ;
}

/// The number of `dmstatus` polls while waiting for the harts to halt.
pub const HALT_POLLS: u32 = 10;

/// After status poll number `polls` read `status`: halted, poll again
/// (`None`), or give up.
pub open spec fn spec_halt_poll(polls: u32, status: u32) -> Option<Result<(), RiscvError>> {
    if bit_of(status, 9) {
        Some(Ok(()))
    } else if polls < HALT_POLLS {
        None
    } else {
        Some(Err(RiscvError::HaltTimeout))
    }
}

/// After status poll number `polls` (from 1) read `status`: halted, poll
/// again, or give up.
pub fn halt_poll_step(polls: u32, status: u32) -> (r: Option<Result<(), RiscvError>>)
    requires
        1 <= polls <= HALT_POLLS,
    ensures
        bit_of(status, 9) ==> r == Some(Ok::<(), RiscvError>(())),
        !bit_of(status, 9) && polls < HALT_POLLS ==> r is None,
        !bit_of(status, 9) && polls == HALT_POLLS ==> r == Some(Err::<(), RiscvError>(RiscvError::HaltTimeout)),
        r == spec_halt_poll(polls, status),
{
    if Dmstatus(status).allhalted() {
        Some(Ok(()))
    } else if polls < HALT_POLLS {
        None
    } else {
        Some(Err(RiscvError::HaltTimeout))
    }
}

/// The `dmcontrol` value that requests a halt, and the one that withdraws the request.
pub fn halt_request_dmcontrol(request: bool) -> (value: u32)
    ensures
        value == if request {
            (1u32 << 31u32) | 1u32
        } else {
            1u32
        },
{
    let mut dmcontrol = Dmcontrol(0);
    if request {
        dmcontrol.set_haltreq(true);
    }
    dmcontrol.set_dmactive(true);
    proof {
        if request {
            assert(((0u32 | (1u32 << 31u32)) | (1u32 << 0u32)) == (1u32 << 31u32) | 1u32) by (bit_vector);
        } else {
            assert((0u32 | (1u32 << 0u32)) == 1u32) by (bit_vector);
        }
    }
    dmcontrol.0
}

/// The answer of the debug module to one read or write.
#[derive(Clone, Copy, Debug, PartialEq, Eq)]
pub enum DmAnswer {
    Read(Result<u32, RiscvError>),
    Write(Result<(), RiscvError>),
}

/// How a run of `command` ends when the debug module gives `answers`, one
/// to each read or write, from `state` with `last` the value last read;
/// `None` when the answers run out or are not answers that `read` and
/// `write` can give to those actions. A failed read or write ends the run
/// with its error.
pub open spec fn command_run<
    R: Fn(u32) -> Result<u32, RiscvError>,
    W: Fn(u32, u32) -> Result<(), RiscvError>,
>(
    read: R,
    write: W,
    command: u32,
    state: CommandState,
    last: u32,
    answers: Seq<DmAnswer>,
) -> Option<Result<(), RiscvError>>
    decreases answers.len(),
{
    let (next, action) = spec_command_step(command, state, last);
    match action {
        DmAction::Finish(r) => Some(r),
        DmAction::Write { address, value } => if answers.len() == 0 {
            None
        } else {
            match answers[0] {
                DmAnswer::Write(a) => if call_ensures(write, (address, value), a) {
                    match a {
                        Err(e) => Some(Err(e)),
                        Ok(_) => command_run(read, write, command, next, last, answers.drop_first()),
                    }
                } else {
                    None
                },
                DmAnswer::Read(_) => None,
            }
        },
        DmAction::Read { address } => if answers.len() == 0 {
            None
        } else {
            match answers[0] {
                DmAnswer::Read(a) => if call_ensures(read, (address,), a) {
                    match a {
                        Err(e) => Some(Err(e)),
                        Ok(v) => command_run(read, write, command, next, v, answers.drop_first()),
                    }
                } else {
                    None
                },
                DmAnswer::Write(_) => None,
            }
        },
    }
}

/// `r` is how running `command` through `read` and `write` can end: the
/// outcome that `execute_abstract_command_step` gives for answers that the
/// debug module can give.
pub open spec fn command_outcome<
    R: Fn(u32) -> Result<u32, RiscvError>,
    W: Fn(u32, u32) -> Result<(), RiscvError>,
>(read: R, write: W, command: u32, r: Result<(), RiscvError>) -> bool {
    exists|answers: Seq<DmAnswer>|
        #[trigger] command_run(read, write, command, CommandState::Start, 0, answers) == Some(r)
}

/// Running `command` through `read` and `write` can end in success.
pub open spec fn command_succeeds<
    R: Fn(u32) -> Result<u32, RiscvError>,
    W: Fn(u32, u32) -> Result<(), RiscvError>,
>(read: R, write: W, command: u32) -> bool {
    exists|c: Result<(), RiscvError>| c is Ok && #[trigger] command_outcome(read, write, command, c)
}

/// `r` is how reading register `regno` by an abstract command can end: the
/// command's error, or, after the command, the read of `data0` (0x04).
pub open spec fn register_read_outcome<
    R: Fn(u32) -> Result<u32, RiscvError>,
    W: Fn(u32, u32) -> Result<(), RiscvError>,
>(read: R, write: W, regno: u32, r: Result<u32, RiscvError>) -> bool {
    ||| command_succeeds(read, write, spec_read_command(regno)) && call_ensures(read, (0x04u32,), r)
    ||| r matches Err(e) && command_outcome(read, write, spec_read_command(regno), Err(e))
}

/// `r` is how writing `value` to register `regno` by an abstract command can
/// end: the error of writing `data0` (0x04), or how the command ends.
pub open spec fn register_write_outcome<
    R: Fn(u32) -> Result<u32, RiscvError>,
    W: Fn(u32, u32) -> Result<(), RiscvError>,
>(read: R, write: W, regno: u32, value: u32, r: Result<(), RiscvError>) -> bool {
    ||| (exists|w: Result<(), RiscvError>| w is Ok && #[trigger] call_ensures(write, (0x04u32, value), w))
        && command_outcome(read, write, spec_write_command(regno), r)
    ||| r matches Err(e) && call_ensures(write, (0x04u32, value), Err::<(), RiscvError>(e))
}

/// How waiting for the harts to halt ends, from status poll number `polls`,
/// when the reads of `dmstatus` (0x11) give `answers`; `None` when they run
/// out or are not answers that `read` can give.
pub open spec fn halt_wait<R: Fn(u32) -> Result<u32, RiscvError>>(
    read: R,
    polls: u32,
    answers: Seq<Result<u32, RiscvError>>,
) -> Option<Result<(), RiscvError>>
    decreases answers.len(),
{
    if answers.len() == 0 || !call_ensures(read, (0x11u32,), answers[0]) {
        None
    } else {
        match answers[0] {
            Err(e) => Some(Err(e)),
            Ok(status) => match spec_halt_poll(polls, status) {
                Some(r) => Some(r),
                None => halt_wait(read, (polls + 1) as u32, answers.drop_first()),
            },
        }
    }
}

/// `r` is how waiting for the harts to halt can end.
pub open spec fn halt_outcome<R: Fn(u32) -> Result<u32, RiscvError>>(read: R, r: Result<(), RiscvError>) -> bool {
    exists|answers: Seq<Result<u32, RiscvError>>| #[trigger] halt_wait(read, 1, answers) == Some(r)
}

/// The instruction `csrrs s0, csr, x0` for the register at `address`.
pub open spec fn spec_csrrs(address: u16) -> u32 {
    0b00000_010_01000_1110011u32 | (((address as u32) & 0xfffu32) << 20u32)
}

/// The steps of reading a register through the program buffer, with the
/// results `s0r` (saving `s0`), `w1` and `w2` (writing the program buffer),
/// `c` (running it), `vr` (reading `s0`) and `wr` (restoring `s0`); each
/// failure ends the read with its error.
pub open spec fn csr_read_steps<
    R: Fn(u32) -> Result<u32, RiscvError>,
    W: Fn(u32, u32) -> Result<(), RiscvError>,
>(
    read: R,
    write: W,
    address: u16,
    r: Result<u32, RiscvError>,
    s0r: Result<u32, RiscvError>,
    w1: Result<(), RiscvError>,
    w2: Result<(), RiscvError>,
    c: Result<(), RiscvError>,
    vr: Result<u32, RiscvError>,
    wr: Result<(), RiscvError>,
) -> bool {
    register_read_outcome(read, write, 0x1008, s0r) && match s0r {
        Err(e) => r == Err::<u32, RiscvError>(e),
        Ok(s0) => call_ensures(write, (0x20u32, spec_csrrs(address)), w1) && match w1 {
            Err(e) => r == Err::<u32, RiscvError>(e),
            Ok(_) => call_ensures(write, (0x21u32, 0x0010_0073u32), w2) && match w2 {
                Err(e) => r == Err::<u32, RiscvError>(e),
                Ok(_) => command_outcome(read, write, 1u32 << 18u32, c) && match c {
                    Err(e) => r == Err::<u32, RiscvError>(e),
                    Ok(_) => register_read_outcome(read, write, 0x1008, vr) && match vr {
                        Err(e) => r == Err::<u32, RiscvError>(e),
                        Ok(v) => register_write_outcome(read, write, 0x1008, s0, wr) && match wr {
                            Err(e) => r == Err::<u32, RiscvError>(e),
                            Ok(_) => r == Ok::<u32, RiscvError>(v),
                        },
                    },
                },
            },
        },
    }
}

/// `r` is how reading core register `address` can end: a general purpose
/// register (0x1000 to 0x101f) by an abstract command, any other through
/// the program buffer.
pub open spec fn core_reg_outcome<
    R: Fn(u32) -> Result<u32, RiscvError>,
    W: Fn(u32, u32) -> Result<(), RiscvError>,
>(read: R, write: W, address: u16, r: Result<u32, RiscvError>) -> bool {
    if 0x1000 <= address <= 0x101f {
        register_read_outcome(read, write, address as u32, r)
    } else {
        exists|
            s0r: Result<u32, RiscvError>,
            w1: Result<(), RiscvError>,
            w2: Result<(), RiscvError>,
            c: Result<(), RiscvError>,
            vr: Result<u32, RiscvError>,
            wr: Result<(), RiscvError>,
        | #[trigger] csr_read_steps(read, write, address, r, s0r, w1, w2, c, vr, wr)
    }
}

/// The steps of halting, with the results `current` (reading `dmcontrol`),
/// `w1` (requesting the halt), `h` (waiting for it) and `w2` (withdrawing
/// the request), ending with the read of `dpc` (0x7b1).
pub open spec fn halt_steps<
    R: Fn(u32) -> Result<u32, RiscvError>,
    W: Fn(u32, u32) -> Result<(), RiscvError>,
>(
    read: R,
    write: W,
    r: Result<u32, RiscvError>,
    current: Result<u32, RiscvError>,
    w1: Result<(), RiscvError>,
    h: Result<(), RiscvError>,
    w2: Result<(), RiscvError>,
) -> bool {
    call_ensures(read, (0x10u32,), current) && match current {
        Err(e) => r == Err::<u32, RiscvError>(e),
        Ok(_) => call_ensures(write, (0x10u32, (1u32 << 31u32) | 1u32), w1) && match w1 {
            Err(e) => r == Err::<u32, RiscvError>(e),
            Ok(_) => halt_outcome(read, h) && match h {
                Err(e) => r == Err::<u32, RiscvError>(e),
                Ok(_) => call_ensures(write, (0x10u32, 1u32), w2) && match w2 {
                    Err(e) => r == Err::<u32, RiscvError>(e),
                    Ok(_) => core_reg_outcome(read, write, 0x7b1, r),
                },
            },
        },
    }
}

/// A 32-bit RISC-V core reached through a debug module, whose registers are
/// read with `read` (by address) and written with `write` (address, value).
pub struct Riscv32<R: Fn(u32) -> Result<u32, RiscvError>, W: Fn(u32, u32) -> Result<(), RiscvError>> {
    read: R,
    write: W,
}

impl<R: Fn(u32) -> Result<u32, RiscvError>, W: Fn(u32, u32) -> Result<(), RiscvError>> Riscv32<R, W> {
    pub closed spec fn spec_read(&self) -> R {
        self.read
    }

    pub closed spec fn spec_write(&self) -> W {
        self.write
    }

    /// The debug module accepts every read and write.
    pub open spec fn accepts_all(&self) -> bool {
        &&& forall|a: u32| call_requires(self.spec_read(), (a,))
        &&& forall|a: u32, v: u32| call_requires(self.spec_write(), (a, v))
    }

    /// A core reached through `read` and `write`.
    pub fn new(read: R, write: W) -> (core: Self)
        ensures
            core.spec_read() == read,
            core.spec_write() == write,
    {
        Riscv32 { read, write }
    }

    /// Runs an abstract command to its end, following `execute_abstract_command_step`.
    pub fn execute_abstract_command(&self, command: u32) -> (r: Result<(), RiscvError>)
        requires
            self.accepts_all(),
        ensures
            command_outcome(self.spec_read(), self.spec_write(), command, r),
    {
        let ghost rd = self.read;
        let ghost wr = self.write;
        let ghost done: Seq<DmAnswer> = Seq::empty();
        let mut state = CommandState::Start;
        let mut read: u32 = 0;
        proof {
            assert forall|rest: Seq<DmAnswer>|
                #[trigger] command_run(rd, wr, command, CommandState::Start, 0, done + rest)
                    == command_run(rd, wr, command, state, read, rest) by {
                assert(done + rest =~= rest);
            }
        }
        loop
            invariant
                self.accepts_all(),
                rd == self.spec_read(),
                wr == self.spec_write(),
                state matches CommandState::Polling { polls } ==> polls <= ABSTRACT_COMMAND_POLLS,
                forall|rest: Seq<DmAnswer>|
                    #[trigger] command_run(rd, wr, command, CommandState::Start, 0, done + rest)
                        == command_run(rd, wr, command, state, read, rest),
            decreases command_actions_left(state),
        {
            let (next, action) = execute_abstract_command_step(command, state, read);
            proof {
                lemma_command_step_progress(command, state, read);
            }
            match action {
                DmAction::Write { address, value } => {
                    let a = (self.write)(address, value);
                    let ghost answer = DmAnswer::Write(a);
                    match a {
                        Err(e) => {
                            proof {
                                assert(seq![answer].drop_first() =~= Seq::<DmAnswer>::empty());
                                assert(command_run(rd, wr, command, state, read, seq![answer]) == Some(
                                    Err::<(), RiscvError>(e),
                                ));
                                assert(command_run(rd, wr, command, CommandState::Start, 0, done + seq![answer])
                                    == Some(Err::<(), RiscvError>(e)));
                            }
                            return Err(e);
                        },
                        Ok(()) => {
                            proof {
                                assert forall|rest: Seq<DmAnswer>|
                                    #[trigger] command_run(rd, wr, command, CommandState::Start, 0, done.push(answer) + rest)
                                        == command_run(rd, wr, command, next, read, rest) by {
                                    let longer = seq![answer] + rest;
                                    assert(done.push(answer) + rest =~= done + longer);
                                    assert(longer.drop_first() =~= rest);
                                    assert(longer[0] == answer);
                                }
                                done = done.push(answer);
                            }
                        },
                    }
                },
                DmAction::Read { address } => {
                    let a = (self.read)(address);
                    let ghost answer = DmAnswer::Read(a);
                    match a {
                        Err(e) => {
                            proof {
                                assert(seq![answer].drop_first() =~= Seq::<DmAnswer>::empty());
                                assert(command_run(rd, wr, command, state, read, seq![answer]) == Some(
                                    Err::<(), RiscvError>(e),
                                ));
                                assert(command_run(rd, wr, command, CommandState::Start, 0, done + seq![answer])
                                    == Some(Err::<(), RiscvError>(e)));
                            }
                            return Err(e);
                        },
                        Ok(v) => {
                            proof {
                                assert forall|rest: Seq<DmAnswer>|
                                    #[trigger] command_run(rd, wr, command, CommandState::Start, 0, done.push(answer) + rest)
                                        == command_run(rd, wr, command, next, v, rest) by {
                                    let longer = seq![answer] + rest;
                                    assert(done.push(answer) + rest =~= done + longer);
                                    assert(longer.drop_first() =~= rest);
                                    assert(longer[0] == answer);
                                }
                                done = done.push(answer);
                            }
                            read = v;
                        },
                    }
                },
                DmAction::Finish(result) => {
                    proof {
                        assert(command_run(rd, wr, command, state, read, Seq::empty()) == Some(result));
                        assert(command_run(rd, wr, command, CommandState::Start, 0, done + Seq::empty())
                            == Some(result));
                    }
                    return result;
                },
            }
            state = next;
        }
    }

    /// Reads a register with an abstract command, through `data0`.
    pub fn abstract_cmd_register_read(&self, regno: u32) -> (r: Result<u32, RiscvError>)
        requires
            self.accepts_all(),
        ensures
            register_read_outcome(self.spec_read(), self.spec_write(), regno, r),
    {
        let ghost rd = self.read;
        let ghost wr = self.write;
        let c = self.execute_abstract_command(register_read_command(regno));
        match c {
            Err(e) => {
                assert(register_read_outcome(rd, wr, regno, Err(e)));
                Err(e)
            },
            Ok(()) => {
                let value = (self.read)(0x04);
                assert(command_outcome(rd, wr, spec_read_command(regno), c));
                assert(register_read_outcome(rd, wr, regno, value));
                value
            },
        }
    }

    /// Writes a register with an abstract command, through `data0`.
    pub fn abstract_cmd_register_write(&self, regno: u32, value: u32) -> (r: Result<(), RiscvError>)
        requires
            self.accepts_all(),
        ensures
            register_write_outcome(self.spec_read(), self.spec_write(), regno, value, r),
    {
        let ghost rd = self.read;
        let ghost wr = self.write;
        assert(rd == self.spec_read() && wr == self.spec_write());
        let w = (self.write)(0x04, value);
        match w {
            Err(e) => {
                assert(register_write_outcome(rd, wr, regno, value, Err(e)));
                Err(e)
            },
            Ok(()) => {
                assert(call_ensures(wr, (0x04u32, value), w));
                let c = self.execute_abstract_command(register_write_command(regno));
                assert(register_write_outcome(rd, wr, regno, value, c));
                c
            },
        }
    }

    /// Waits until all harts are halted, polling `dmstatus`.
    pub fn wait_for_core_halted(&self) -> (r: Result<(), RiscvError>)
        requires
            self.accepts_all(),
        ensures
            halt_outcome(self.spec_read(), r),
    {
        let ghost rd = self.read;
        let ghost done: Seq<Result<u32, RiscvError>> = Seq::empty();
        let mut polls: u32 = 1;
        proof {
            assert forall|rest: Seq<Result<u32, RiscvError>>|
                #[trigger] halt_wait(rd, 1, done + rest) == halt_wait(rd, polls, rest) by {
                assert(done + rest =~= rest);
            }
        }
        loop
            invariant
                self.accepts_all(),
                rd == self.spec_read(),
                1 <= polls <= HALT_POLLS,
                forall|rest: Seq<Result<u32, RiscvError>>|
                    #[trigger] halt_wait(rd, 1, done + rest) == halt_wait(rd, polls, rest),
            decreases HALT_POLLS - polls,
        {
            let a = (self.read)(0x11);
            match a {
                Err(e) => {
                    proof {
                        assert(halt_wait(rd, polls, seq![a]) == Some(Err::<(), RiscvError>(e)));
                        assert(halt_wait(rd, 1, done + seq![a]) == Some(Err::<(), RiscvError>(e)));
                    }
                    return Err(e);
                },
                Ok(status) => {
                    match halt_poll_step(polls, status) {
                        Some(result) => {
                            proof {
                                assert(halt_wait(rd, polls, seq![a]) == Some(result));
                                assert(halt_wait(rd, 1, done + seq![a]) == Some(result));
                            }
                            return result;
                        },
                        None => {
                            proof {
                                assert forall|rest: Seq<Result<u32, RiscvError>>|
                                    #[trigger] halt_wait(rd, 1, done.push(a) + rest)
                                        == halt_wait(rd, (polls + 1) as u32, rest) by {
                                    let longer = seq![a] + rest;
                                    assert(done.push(a) + rest =~= done + longer);
                                    assert(longer.drop_first() =~= rest);
                                    assert(longer[0] == a);
                                }
                                done = done.push(a);
                            }
                            polls = polls + 1;
                        },
                    }
                },
            }
        }
    }

    /// Reads a core register: a general purpose register by an abstract
    /// command, any other through the program buffer, keeping `s0` as it was.
    pub fn read_core_reg(&self, address: u16) -> (r: Result<u32, RiscvError>)
        requires
            self.accepts_all(),
        ensures
            core_reg_outcome(self.spec_read(), self.spec_write(), address, r),
    {
        let ghost rd = self.read;
        let ghost wr = self.write;
        assert(rd == self.spec_read() && wr == self.spec_write());
        if 0x1000 <= address && address <= 0x101f {
            return self.abstract_cmd_register_read(address as u32);
        }
        let s0r = self.abstract_cmd_register_read(0x1008);
        let s0 = match s0r {
            Err(e) => {
                assert(csr_read_steps(rd, wr, address, Err(e), s0r, Ok(()), Ok(()), Ok(()), s0r, Ok(())));
                return Err(e);
            },
            Ok(s0) => s0,
        };
        let w1 = (self.write)(0x20, csrrs_command(address));
        if let Err(e) = w1 {
            assert(csr_read_steps(rd, wr, address, Err(e), s0r, w1, Ok(()), Ok(()), s0r, Ok(())));
            return Err(e);
        }
        let w2 = (self.write)(0x21, ebreak_command());
        if let Err(e) = w2 {
            assert(csr_read_steps(rd, wr, address, Err(e), s0r, w1, w2, Ok(()), s0r, Ok(())));
            return Err(e);
        }
        let c = self.execute_abstract_command(postexec_command());
        if let Err(e) = c {
            assert(csr_read_steps(rd, wr, address, Err(e), s0r, w1, w2, c, s0r, Ok(())));
            return Err(e);
        }
        let vr = self.abstract_cmd_register_read(0x1008);
        let value = match vr {
            Err(e) => {
                assert(csr_read_steps(rd, wr, address, Err(e), s0r, w1, w2, c, vr, Ok(())));
                return Err(e);
            },
            Ok(v) => v,
        };
        let wr2 = self.abstract_cmd_register_write(0x1008, s0);
        if let Err(e) = wr2 {
            assert(csr_read_steps(rd, wr, address, Err(e), s0r, w1, w2, c, vr, wr2));
            return Err(e);
        }
        assert(csr_read_steps(rd, wr, address, Ok(value), s0r, w1, w2, c, vr, wr2));
        Ok(value)
    }

    /// Halts the core and returns its program counter (the `dpc` register).
    pub fn halt(&self) -> (r: Result<u32, RiscvError>)
        requires
            self.accepts_all(),
        ensures
            exists|
                current: Result<u32, RiscvError>,
                w1: Result<(), RiscvError>,
                h: Result<(), RiscvError>,
                w2: Result<(), RiscvError>,
            | #[trigger] halt_steps(self.spec_read(), self.spec_write(), r, current, w1, h, w2),
    {
        let ghost rd = self.read;
        let ghost wr = self.write;
        assert(rd == self.spec_read() && wr == self.spec_write());
        let current = (self.read)(0x10);
        if let Err(e) = current {
            assert(halt_steps(rd, wr, Err(e), current, Ok(()), Ok(()), Ok(())));
            return Err(e);
        }
        let w1 = (self.write)(0x10, halt_request_dmcontrol(true));
        if let Err(e) = w1 {
            assert(halt_steps(rd, wr, Err(e), current, w1, Ok(()), Ok(())));
            return Err(e);
        }
        let h = self.wait_for_core_halted();
        if let Err(e) = h {
            assert(halt_steps(rd, wr, Err(e), current, w1, h, Ok(())));
            return Err(e);
        }
        let w2 = (self.write)(0x10, halt_request_dmcontrol(false));
        if let Err(e) = w2 {
            assert(halt_steps(rd, wr, Err(e), current, w1, h, w2));
            return Err(e);
        }
        let r = self.read_core_reg(0x7b1);
        assert(halt_steps(rd, wr, r, current, w1, h, w2));
        r
    }
}

} // verus!
