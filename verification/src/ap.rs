//! ARM debug access ports: finding the ports that a debug port offers.

use vstd::prelude::*;
use crate::gdb::{byte_hex, hex_digit};

verus! {

/// Errors of access-port operations.
#[derive(Clone, Copy, Debug, PartialEq, Eq)]
pub enum AccessPortError {
    InvalidAccessPortNumber,
    MemoryNotAligned,
    RegisterReadError { address: u8, name: &'static str },
    RegisterWriteError { address: u8, name: &'static str },
    OutOfBoundsError,
}

/// A register with an address and a name.
pub trait Register {
    spec fn spec_address() -> u8;

    spec fn spec_name() -> Seq<char>;

    fn address() -> (address: u8)
        ensures
            address == Self::spec_address(),
    ;

    fn name() -> (name: &'static str)
        ensures
            name@ == Self::spec_name(),
    ;
}

/// The text of an access-port error: the register's name and its address
/// in eight hexadecimal digits for a failed read or write.
pub open spec fn ap_error_text(e: AccessPortError) -> Seq<char> {
    match e {
        AccessPortError::InvalidAccessPortNumber => "Invalid Access PortType Number"@,
        AccessPortError::MemoryNotAligned => "Misaligned memory access"@,
        AccessPortError::RegisterReadError { address, name } => "Failed to read register "@ + name@
            + ", address 0x000000"@ + byte_hex(address as int),
        AccessPortError::RegisterWriteError { address, name } => "Failed to write register "@
            + name@ + ", address 0x000000"@ + byte_hex(address as int),
        AccessPortError::OutOfBoundsError => "Out of bounds access"@,
    }
}

impl AccessPortError {
    /// The text of the error.
    pub fn to_string(&self) -> (text: String)
        ensures
            text@ == ap_error_text(*self),
    {
        match self {
            AccessPortError::InvalidAccessPortNumber => String::from_str("Invalid Access PortType Number"),
            AccessPortError::MemoryNotAligned => String::from_str("Misaligned memory access"),
            AccessPortError::RegisterReadError { address, name } => {
                let mut text = String::from_str("Failed to read register ");
                text.append(name);
                text.append(", address 0x000000");
                text.append(hex_digit((*address as u32) / 16));
                text.append(hex_digit((*address as u32) % 16));
                text
            },
            AccessPortError::RegisterWriteError { address, name } => {
                let mut text = String::from_str("Failed to write register ");
                text.append(name);
                text.append(", address 0x000000");
                text.append(hex_digit((*address as u32) / 16));
                text.append(hex_digit((*address as u32) % 16));
                text
            },
            AccessPortError::OutOfBoundsError => String::from_str("Out of bounds access"),
        }
    }

    /// The error of a failed read of register `R`.
    pub fn register_read_error<R: Register>() -> (e: AccessPortError)
        ensures
            e matches AccessPortError::RegisterReadError { address, name } && address
                == R::spec_address() && name@ == R::spec_name(),
    {
        AccessPortError::RegisterReadError { address: R::address(), name: R::name() }
    }

    /// The error of a failed write of register `R`.
    pub fn register_write_error<R: Register>() -> (e: AccessPortError)
        ensures
            e matches AccessPortError::RegisterWriteError { address, name } && address
                == R::spec_address() && name@ == R::spec_name(),
    {
        AccessPortError::RegisterWriteError { address: R::address(), name: R::name() }
    }
}

/// A register of an access port, in a bank of the port.
pub trait APRegister<PORT: AccessPort>: Register {
    fn apbanksel() -> u8;
}

/// An access port.
pub trait AccessPort {
    fn get_port_number(&self) -> u8;
}

/// Reading and writing the registers of access ports through a debug port.
pub trait APAccess<PORT: AccessPort, R: APRegister<PORT>> {
    type Error;

    /// Whether, from this state of the debug port, reading `register` of
    /// `port` can give `answer`; each implementation says which answers its
    /// reads give.
    spec fn read_answers(&self, port: PORT, register: R, answer: Result<R, Self::Error>) -> bool;

    fn read_ap_register(&mut self, port: PORT, register: R) -> (answer: Result<R, Self::Error>)
        ensures
            old(self).read_answers(port, register, answer),
    ;

    /// Reads a register repeatedly, one value per element of `values`.
    fn read_ap_register_repeated(&mut self, port: PORT, register: R, values: &mut [u32]) -> Result<
        (),
        Self::Error,
    >;

    fn write_ap_register(&mut self, port: PORT, register: R) -> Result<(), Self::Error>;

    /// Writes a register repeatedly, one value per element of `values`.
    fn write_ap_register_repeated(&mut self, port: PORT, register: R, values: &[u32]) -> Result<
        (),
        Self::Error,
    >;
}

/// An access port of any kind, by number.
#[derive(Clone, Copy, Debug, PartialEq, Eq, Structural)]
pub struct GenericAP {
    pub port_number: u8,
}

impl GenericAP {
    pub fn new(port_number: u8) -> (ap: Self)
        ensures
            ap.port_number == port_number,
    {
        GenericAP { port_number }
    }
}

impl AccessPort for GenericAP {
    fn get_port_number(&self) -> (n: u8)
        ensures
            n == self.port_number,
    {
        self.port_number
    }
}

/// The identification register of an access port; zero means no port.
#[derive(Clone, Copy, Debug, PartialEq, Eq, Structural)]
pub struct IDR(pub u32);

impl Register for IDR {
    open spec fn spec_address() -> u8 {
        0xFC
    }

    open spec fn spec_name() -> Seq<char> {
        "IDR"@
    }

    fn address() -> (address: u8) {
        0xFC
    }

    fn name() -> (name: &'static str) {
        "IDR"
    }
}

impl APRegister<GenericAP> for IDR {
    fn apbanksel() -> (bank: u8)
        ensures
            bank == 0xF,
    {
        0xF
    }
}

/// A read of the identification register that succeeded with a non-zero value.
pub open spec fn idr_valid<E>(read: Result<IDR, E>) -> bool {
    read matches Ok(idr) && idr.0 != 0
}

/// A read of the identification register shows a port when it succeeded
/// and gave a non-zero value.
pub fn idr_shows_port<E>(read: &Result<IDR, E>) -> (valid: bool)
    ensures
        valid == idr_valid(*read),
{
    match read {
        Ok(idr) => idr.0 != 0,
        Err(_) => false,
    }
}

/// Whether an access port exists at `access_port`: its identification
/// register reads as non-zero.
pub fn access_port_is_valid<AP: APAccess<GenericAP, IDR>>(debug_port: &mut AP, access_port: GenericAP) -> (valid: bool)
    ensures
        exists|read: Result<IDR, AP::Error>|
            #[trigger] old(debug_port).read_answers(access_port, IDR(0), read) && valid == idr_valid(read),
{
    let read = debug_port.read_ap_register(access_port, IDR(0));
    idr_shows_port(&read)
}

/// The reads of the identification registers of ports 0, 1, 2, ... in
/// turn: `states[i]` is the debug port before read `i`, which gave
/// `answers[i]`; `states` starts at `start` and ends at `end`.
pub open spec fn idr_reads<AP: APAccess<GenericAP, IDR>>(
    states: Seq<AP>,
    answers: Seq<Result<IDR, AP::Error>>,
    start: AP,
    end: AP,
) -> bool {
    &&& states.len() == answers.len() + 1
    &&& states[0] == start
    &&& states.last() == end
    &&& forall|i: int|
        #![trigger answers[i]]
        0 <= i < answers.len() ==> states[i].read_answers(GenericAP { port_number: i as u8 }, IDR(0), answers[i])
}

/// The scan of `valid_access_ports`: ports 0 to `n - 1` read as valid, and
/// port `n`, when there is one below 256, as not valid.
pub open spec fn port_scan<AP: APAccess<GenericAP, IDR>>(
    states: Seq<AP>,
    answers: Seq<Result<IDR, AP::Error>>,
    start: AP,
    end: AP,
    n: int,
) -> bool {
    &&& idr_reads(states, answers, start, end)
    &&& answers.len() == (if n < 256 { n + 1 } else { 256 })
    &&& forall|i: int| 0 <= i < n ==> idr_valid(#[trigger] answers[i])
    &&& n < 256 ==> !idr_valid(answers[n])
}

/// The valid access ports: ports 0, 1, 2, ... up to the first that is not valid.
pub fn valid_access_ports<AP: APAccess<GenericAP, IDR>>(debug_port: &mut AP) -> (ports: Vec<GenericAP>)
    ensures
        ports@.len() <= 256,
        forall|i: int| 0 <= i < ports@.len() ==> (#[trigger] ports@[i]).port_number == i,
        exists|states: Seq<AP>, answers: Seq<Result<IDR, AP::Error>>|
            #[trigger] port_scan(states, answers, *old(debug_port), *final(debug_port), ports@.len() as int),
{
    let ghost start = *debug_port;
    assert(start == *old(debug_port));
    let mut ports: Vec<GenericAP> = Vec::new();
    let mut n: u32 = 0;
    let ghost mut states: Seq<AP> = seq![*debug_port];
    let ghost mut answers: Seq<Result<IDR, AP::Error>> = Seq::empty();
    loop
        invariant
            n <= 256,
            ports@.len() == n,
            forall|i: int| 0 <= i < ports@.len() ==> (#[trigger] ports@[i]).port_number == i,
            start == *old(debug_port),
            idr_reads(states, answers, start, *debug_port),
            answers.len() == n,
            forall|i: int| 0 <= i < n ==> idr_valid(#[trigger] answers[i]),
        decreases 256 - n,
    {
        if n == 256 {
            assert(port_scan(states, answers, *old(debug_port), *debug_port, ports@.len() as int));
            return ports;
        }
        let port = GenericAP::new(n as u8);
        let ghost before = *debug_port;
        let valid = access_port_is_valid(debug_port, port);
        let ghost a = choose|read: Result<IDR, AP::Error>|
            #[trigger] before.read_answers(port, IDR(0), read) && valid == idr_valid(read);
        proof {
            let old_states = states;
            let old_answers = answers;
            states = states.push(*debug_port);
            answers = answers.push(a);
            assert(port == GenericAP { port_number: n as u8 });
            assert forall|i: int| 0 <= i < answers.len() implies states[i].read_answers(
                GenericAP { port_number: i as u8 },
                IDR(0),
                #[trigger] answers[i],
            ) by {
                if i < n {
                    assert(old_answers[i] == answers[i]);
                    assert(old_states[i] == states[i]);
                }
            }
        }
        if !valid {
            assert(port_scan(states, answers, *old(debug_port), *debug_port, ports@.len() as int));
            return ports;
        }
        ports.push(port);
        n = n + 1;
    }
}

/// What `f` gives for a read of an identification register: its value on
/// the register read, and `false` for a read that failed.
pub open spec fn idr_found<E, P: Fn(IDR) -> bool>(f: P, answer: Result<IDR, E>, found: bool) -> bool {
    match answer {
        Ok(idr) => call_ensures(f, (idr,), found),
        Err(_) => !found,
    }
}

/// The search of `get_ap_by_idr`: the identification registers of ports 0,
/// 1, 2, ... read in turn and tested with `f`, which fails on each but the
/// last; the last is the port found, or port 255 when none is found.
pub open spec fn idr_search<AP: APAccess<GenericAP, IDR>, P: Fn(IDR) -> bool>(
    states: Seq<AP>,
    answers: Seq<Result<IDR, AP::Error>>,
    founds: Seq<bool>,
    f: P,
    start: AP,
    end: AP,
    ap: Option<GenericAP>,
) -> bool {
    &&& idr_reads(states, answers, start, end)
    &&& founds.len() == answers.len()
    &&& forall|i: int| 0 <= i < answers.len() ==> idr_found(f, #[trigger] answers[i], founds[i])
    &&& forall|i: int| 0 <= i < answers.len() ==> #[trigger] founds[i] == (ap is Some && i == answers.len() - 1)
    &&& match ap {
        Some(port) => answers.len() > 0 && port.port_number == answers.len() - 1,
        None => answers.len() == 256,
    }
}

/// The first access port whose identification register reads and satisfies `f`.
pub fn get_ap_by_idr<AP: APAccess<GenericAP, IDR>, P: Fn(IDR) -> bool>(debug_port: &mut AP, f: P) -> (ap: Option<GenericAP>)
    requires
        forall|idr: IDR| call_requires(f, (idr,)),
    ensures
        exists|states: Seq<AP>, answers: Seq<Result<IDR, AP::Error>>, founds: Seq<bool>|
            #[trigger] idr_search(states, answers, founds, f, *old(debug_port), *final(debug_port), ap),
{
    let ghost start = *debug_port;
    assert(start == *old(debug_port));
    let mut n: u32 = 0;
    let ghost mut states: Seq<AP> = seq![*debug_port];
    let ghost mut answers: Seq<Result<IDR, AP::Error>> = Seq::empty();
    let ghost mut founds: Seq<bool> = Seq::empty();
    loop
        invariant
            n <= 256,
            forall|idr: IDR| call_requires(f, (idr,)),
            start == *old(debug_port),
            idr_reads(states, answers, start, *debug_port),
            answers.len() == n,
            founds.len() == n,
            forall|i: int| 0 <= i < n ==> idr_found(f, #[trigger] answers[i], founds[i]),
            forall|i: int| 0 <= i < n ==> !#[trigger] founds[i],
        decreases 256 - n,
    {
        if n == 256 {
            assert(idr_search(states, answers, founds, f, *old(debug_port), *debug_port, None::<GenericAP>));
            return None;
        }
        let port = GenericAP::new(n as u8);
        let ghost before = *debug_port;
        let a = debug_port.read_ap_register(port, IDR(0));
        let found = match a {
            Ok(idr) => f(idr),
            Err(_) => false,
        };
        proof {
            let old_states = states;
            let old_answers = answers;
            let old_founds = founds;
            states = states.push(*debug_port);
            answers = answers.push(a);
            founds = founds.push(found);
            assert(port == GenericAP { port_number: n as u8 });
            assert forall|i: int| 0 <= i < answers.len() implies states[i].read_answers(
                GenericAP { port_number: i as u8 },
                IDR(0),
                #[trigger] answers[i],
            ) && idr_found(f, answers[i], founds[i]) by {
                if i < n {
                    assert(old_answers[i] == answers[i]);
                    assert(old_states[i] == states[i]);
                    assert(old_founds[i] == founds[i]);
                }
            }
            assert forall|i: int| 0 <= i < n implies !#[trigger] founds[i] by {
                assert(old_founds[i] == founds[i]);
            }
        }
        if found {
            assert(idr_search(states, answers, founds, f, *old(debug_port), *debug_port, Some(port)));
            return Some(port);
        }
        n = n + 1;
    }
}

/// The base address of the ROM table from the `BASE` and `BASE2` registers:
/// the `BASEADDR` field (bits 31 to 12) in place, and, in the ADIv5 format
/// (bit 1 set), `BASE2` as the upper 32 bits.
pub fn rom_table_base_address(base: u32, base2: u32) -> (address: u64)
    ensures
        address == (if base & 2u32 != 0 {
            (base2 as u64) << 32u64
        } else {
            0u64
        }) | (((base >> 12u32) << 12u32) as u64),
{
    let upper: u64 = if base & 2 != 0 {
        (base2 as u64) << 32u64
    } else {
        0
    };
    upper | (((base >> 12u32) << 12u32) as u64)
}

} // verus!
