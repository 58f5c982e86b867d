use probe_rs::ap::{
    access_port_is_valid, get_ap_by_idr, idr_shows_port, rom_table_base_address,
    valid_access_ports, APAccess, AccessPortError, GenericAP, IDR,
};

/// A debug port whose access ports have the given identification values.
struct MockDebugPort {
    idrs: Vec<u32>,
}

impl MockDebugPort {
    fn idr_of(&self, port: GenericAP) -> Result<IDR, AccessPortError> {
        match self.idrs.get(port.port_number as usize) {
            Some(v) => Ok(IDR(*v)),
            None => Err(AccessPortError::register_read_error::<IDR>()),
        }
    }
}

impl APAccess<GenericAP, IDR> for MockDebugPort {
    type Error = AccessPortError;

    fn read_answers(&self, port: GenericAP, _register: IDR, answer: Result<IDR, AccessPortError>) -> bool {
        answer == self.idr_of(port)
    }

    fn read_ap_register(&mut self, port: GenericAP, _register: IDR) -> Result<IDR, AccessPortError> {
        self.idr_of(port)
    }

    fn read_ap_register_repeated(
        &mut self,
        _port: GenericAP,
        _register: IDR,
        _values: &mut [u32],
    ) -> Result<(), AccessPortError> {
        Err(AccessPortError::OutOfBoundsError)
    }

    fn write_ap_register(&mut self, _port: GenericAP, _register: IDR) -> Result<(), AccessPortError> {
        Err(AccessPortError::register_write_error::<IDR>())
    }

    fn write_ap_register_repeated(
        &mut self,
        _port: GenericAP,
        _register: IDR,
        _values: &[u32],
    ) -> Result<(), AccessPortError> {
        Err(AccessPortError::OutOfBoundsError)
    }
}

#[test]
fn register_errors_name_the_register() {
    assert_eq!(
        AccessPortError::register_read_error::<IDR>(),
        AccessPortError::RegisterReadError { address: 0xFC, name: "IDR" }
    );
    assert_eq!(
        AccessPortError::register_write_error::<IDR>(),
        AccessPortError::RegisterWriteError { address: 0xFC, name: "IDR" }
    );
}

#[test]
fn a_port_is_valid_when_its_idr_is_not_zero() {
    assert!(idr_shows_port::<()>(&Ok(IDR(0x2477_0011))));
    assert!(!idr_shows_port::<()>(&Ok(IDR(0))));
    assert!(!idr_shows_port(&Err(())));
    let mut dp = MockDebugPort { idrs: vec![0x2477_0011, 0] };
    assert!(access_port_is_valid(&mut dp, GenericAP::new(0)));
    assert!(!access_port_is_valid(&mut dp, GenericAP::new(1)));
    assert!(!access_port_is_valid(&mut dp, GenericAP::new(2)));
}

#[test]
fn valid_ports_stop_at_the_first_invalid_one() {
    let mut dp = MockDebugPort { idrs: vec![0x11, 0x22, 0, 0x44] };
    let ports = valid_access_ports(&mut dp);
    assert_eq!(ports, vec![GenericAP::new(0), GenericAP::new(1)]);
    let mut dp = MockDebugPort { idrs: vec![1; 300] };
    assert_eq!(valid_access_ports(&mut dp).len(), 256);
}

#[test]
fn port_found_by_its_idr() {
    let mut dp = MockDebugPort { idrs: vec![0x11, 0x22, 0x44] };
    assert_eq!(get_ap_by_idr(&mut dp, |idr| idr.0 == 0x22), Some(GenericAP::new(1)));
    assert_eq!(get_ap_by_idr(&mut dp, |idr| idr.0 == 0x99), None);
}

#[test]
fn rom_table_address() {
    assert_eq!(rom_table_base_address(0xE00F_F003, 0x1), 0x1_E00F_F000);
    assert_eq!(rom_table_base_address(0xE00F_F001, 0x1), 0xE00F_F000);
}


#[test]
fn error_texts() {
    assert_eq!(
        AccessPortError::register_read_error::<IDR>().to_string(),
        "Failed to read register IDR, address 0x000000fc"
    );
    assert_eq!(
        AccessPortError::register_write_error::<IDR>().to_string(),
        "Failed to write register IDR, address 0x000000fc"
    );
    assert_eq!(AccessPortError::OutOfBoundsError.to_string(), "Out of bounds access");
    assert_eq!(AccessPortError::MemoryNotAligned.to_string(), "Misaligned memory access");
    assert_eq!(
        AccessPortError::InvalidAccessPortNumber.to_string(),
        "Invalid Access PortType Number"
    );
}
