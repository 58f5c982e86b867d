use probe_rs::riscv::{
    csrrs_command, ebreak_command, execute_abstract_command_step, halt_poll_step,
    halt_request_dmcontrol, postexec_command, register_read_command, register_write_command,
    Abstractcs, AccessRegisterCommand, CommandState, DmAction, Dmcontrol, Dmstatus,
    Riscv32, RiscvError,
};
use std::cell::RefCell;
use std::collections::HashMap;

#[test]
fn register_fields() {
    let mut dmcontrol = Dmcontrol(0);
    dmcontrol.set_haltreq(true);
    dmcontrol.set_dmactive(true);
    assert_eq!(dmcontrol.0, 0x8000_0001);
    dmcontrol.set_haltreq(false);
    dmcontrol.set_ackhavereset(true);
    assert_eq!(dmcontrol.0, 0x1000_0001);
    dmcontrol.set_resumereq(true);
    assert_eq!(dmcontrol.0, 0x5000_0001);

    assert!(Dmstatus(1 << 9).allhalted());
    assert!(!Dmstatus(1 << 8).allhalted());

    let status = Abstractcs(0x0000_1300);
    assert!(status.busy());
    assert_eq!(status.cmderr(), 3);
    let mut clear = Abstractcs(0);
    clear.set_cmderr(7);
    assert_eq!(clear.0, 0x700);

    let mut command = AccessRegisterCommand(0);
    command.set_regno(0x1008);
    command.set_aarsize(2);
    command.set_transfer(true);
    command.set_write(true);
    command.set_postexec(true);
    command.set_cmd_type(0);
    assert_eq!(command.0, 0x0027_1008);
}

#[test]
fn command_words() {
    assert_eq!(register_read_command(0x1001), 0x0022_1001);
    assert_eq!(register_write_command(0x1001), 0x0023_1001);
    assert_eq!(register_read_command(0x12345), 0x0022_2345);
    assert_eq!(postexec_command(), 0x0004_0000);
    assert_eq!(csrrs_command(0x7b1), 0x7b10_2473);
    assert_eq!(ebreak_command(), 0x0010_0073);
    assert_eq!(halt_request_dmcontrol(true), 0x8000_0001);
    assert_eq!(halt_request_dmcontrol(false), 0x0000_0001);
}

#[test]
fn command_steps_without_old_error() {
    let command = 0x0022_1001;
    let (state, action) = execute_abstract_command_step(command, CommandState::Start, 0);
    assert_eq!(state, CommandState::ReadStatus);
    assert_eq!(action, DmAction::Write { address: 0x10, value: 0x1000_0001 });
    let (state, action) = execute_abstract_command_step(command, state, 0);
    assert_eq!(state, CommandState::GotStatus);
    assert_eq!(action, DmAction::Read { address: 0x16 });
    let (state, action) = execute_abstract_command_step(command, state, 0);
    assert_eq!(state, CommandState::Polling { polls: 0 });
    assert_eq!(action, DmAction::Write { address: 0x17, value: command });
    let (state, action) = execute_abstract_command_step(command, state, 0);
    assert_eq!(state, CommandState::Polling { polls: 1 });
    assert_eq!(action, DmAction::Read { address: 0x16 });
    let (state, action) = execute_abstract_command_step(command, state, 1 << 12);
    assert_eq!(state, CommandState::Polling { polls: 2 });
    assert_eq!(action, DmAction::Read { address: 0x16 });
    let (state, action) = execute_abstract_command_step(command, state, 0);
    assert_eq!(state, CommandState::Done);
    assert_eq!(action, DmAction::Finish(Ok(())));
}

#[test]
fn command_steps_clear_old_error_and_report_new_ones() {
    let command = 0x0022_1001;
    let (state, action) = execute_abstract_command_step(command, CommandState::GotStatus, 0x200);
    assert_eq!(state, CommandState::WriteCommand);
    assert_eq!(action, DmAction::Write { address: 0x16, value: 0x700 });
    let (state, action) = execute_abstract_command_step(command, state, 0);
    assert_eq!(state, CommandState::Polling { polls: 0 });
    assert_eq!(action, DmAction::Write { address: 0x17, value: command });
    let (_, action) =
        execute_abstract_command_step(command, CommandState::Polling { polls: 3 }, 0x200);
    assert_eq!(action, DmAction::Finish(Err(RiscvError::AbstractCommandError(2))));
    let (_, action) =
        execute_abstract_command_step(command, CommandState::Polling { polls: 10 }, 1 << 12);
    assert_eq!(action, DmAction::Finish(Err(RiscvError::AbstractCommandBusy)));
}

#[test]
fn halt_polls() {
    assert_eq!(halt_poll_step(1, 1 << 9), Some(Ok(())));
    assert_eq!(halt_poll_step(3, 0), None);
    assert_eq!(halt_poll_step(10, 0), Some(Err(RiscvError::HaltTimeout)));
}

/// A debug module that runs abstract commands at once.
struct SimulatedDm {
    dm: RefCell<HashMap<u32, u32>>,
    registers: RefCell<HashMap<u32, u32>>,
    csrs: HashMap<u32, u32>,
    busy: bool,
    cmderr: u32,
    halts: bool,
    halted: RefCell<bool>,
}

impl SimulatedDm {
    fn new() -> Self {
        let mut csrs = HashMap::new();
        csrs.insert(0x7b1, 0x0800_1234);
        SimulatedDm {
            dm: RefCell::new(HashMap::new()),
            registers: RefCell::new(HashMap::new()),
            csrs,
            busy: false,
            cmderr: 0,
            halts: true,
            halted: RefCell::new(false),
        }
    }
}

impl SimulatedDm {
    fn read_dm_register(&self, address: u32) -> Result<u32, RiscvError> {
        match address {
            0x16 => Ok(((self.busy as u32) << 12) | (self.cmderr << 8)),
            0x11 => Ok((*self.halted.borrow() as u32) << 9),
            _ => Ok(*self.dm.borrow().get(&address).unwrap_or(&0)),
        }
    }

    fn write_dm_register(&self, address: u32, value: u32) -> Result<(), RiscvError> {
        if address == 0x17 {
            let regno = value & 0xffff;
            if value & (1 << 17) != 0 {
                if value & (1 << 16) != 0 {
                    let data0 = *self.dm.borrow().get(&0x04).unwrap_or(&0);
                    self.registers.borrow_mut().insert(regno, data0);
                } else {
                    let v = *self.registers.borrow().get(&regno).unwrap_or(&0);
                    self.dm.borrow_mut().insert(0x04, v);
                }
            }
            if value & (1 << 18) != 0 {
                let instruction = *self.dm.borrow().get(&0x20).unwrap_or(&0);
                let csr = instruction >> 20;
                let v = *self.csrs.get(&csr).unwrap_or(&0);
                self.registers.borrow_mut().insert(0x1008, v);
            }
        }
        if address == 0x10 && value & 0x8000_0000 != 0 {
            *self.halted.borrow_mut() = self.halts;
        }
        self.dm.borrow_mut().insert(address, value);
        Ok(())
    }
}

#[test]
fn abstract_register_access() {
    let sim = SimulatedDm::new();
    sim.registers.borrow_mut().insert(0x1001, 77);
    let core = Riscv32::new(|a| sim.read_dm_register(a), |a, v| sim.write_dm_register(a, v));
    assert_eq!(core.abstract_cmd_register_read(0x1001), Ok(77));
    assert_eq!(core.abstract_cmd_register_write(0x1002, 99), Ok(()));
    assert_eq!(core.abstract_cmd_register_read(0x1002), Ok(99));
    assert_eq!(core.read_core_reg(0x1001), Ok(77));
}

#[test]
fn csr_read_through_program_buffer_keeps_s0() {
    let sim = SimulatedDm::new();
    sim.registers.borrow_mut().insert(0x1008, 5);
    let core = Riscv32::new(|a| sim.read_dm_register(a), |a, v| sim.write_dm_register(a, v));
    assert_eq!(core.read_core_reg(0x7b1), Ok(0x0800_1234));
    assert_eq!(core.abstract_cmd_register_read(0x1008), Ok(5));
}

#[test]
fn halt_returns_the_program_counter() {
    let sim = SimulatedDm::new();
    let core = Riscv32::new(|a| sim.read_dm_register(a), |a, v| sim.write_dm_register(a, v));
    assert_eq!(core.halt(), Ok(0x0800_1234));
}

#[test]
fn failures_are_reported() {
    let mut sim = SimulatedDm::new();
    sim.busy = true;
    assert_eq!(
        Riscv32::new(|a| sim.read_dm_register(a), |a, v| sim.write_dm_register(a, v)).execute_abstract_command(0x0022_1001),
        Err(RiscvError::AbstractCommandBusy)
    );
    let mut sim = SimulatedDm::new();
    sim.cmderr = 2;
    assert_eq!(
        Riscv32::new(|a| sim.read_dm_register(a), |a, v| sim.write_dm_register(a, v)).execute_abstract_command(0x0022_1001),
        Err(RiscvError::AbstractCommandError(2))
    );
    let mut sim = SimulatedDm::new();
    sim.halts = false;
    assert_eq!(Riscv32::new(|a| sim.read_dm_register(a), |a, v| sim.write_dm_register(a, v)).halt(), Err(RiscvError::HaltTimeout));
}

#[test]
fn a_command_run_ends_within_fifteen_actions() {
    let command = 0x0022_1001;
    // A debug module that reports an old error and stays busy forever.
    let mut state = CommandState::Start;
    let mut actions = 0;
    loop {
        let (next, action) = execute_abstract_command_step(command, state, (1 << 12) | 0x100);
        actions += 1;
        if let DmAction::Finish(result) = action {
            assert_eq!(result, Err(RiscvError::AbstractCommandBusy));
            break;
        }
        state = next;
        assert!(actions < 15);
    }
    assert_eq!(actions, 15);
}
