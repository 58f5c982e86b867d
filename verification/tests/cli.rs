use probe_rs::cli::{
    parse_radix, request_state, CliError, CliRequest, CliState, Command, CommandKind, DebugCli,
    LineOutcome,
};

fn request(cli: &DebugCli, line: &str) -> Result<CliRequest, CliError> {
    match cli.handle_line(line)? {
        LineOutcome::Request(r) => Ok(r),
        other => panic!("not a request: {:?}", other),
    }
}

#[test]
fn empty_line_and_help() {
    let cli = DebugCli::new();
    assert!(matches!(cli.handle_line("   \t "), Ok(LineOutcome::Empty)));
    match cli.handle_line("help") {
        Ok(LineOutcome::Help(names)) => assert_eq!(
            names,
            vec![
                "step", "halt", "status", "run", "quit", "read", "write", "break", "clear_break",
                "bt", "regs", "dump", "reset"
            ]
        ),
        other => panic!("unexpected {:?}", other),
    }
}

#[test]
fn unknown_command_is_named() {
    let cli = DebugCli::new();
    match cli.handle_line("  frobnicate 12") {
        Ok(LineOutcome::Unknown(name)) => assert_eq!(name, "frobnicate"),
        other => panic!("unexpected {:?}", other),
    }
}

#[test]
fn commands_without_arguments() {
    let cli = DebugCli::new();
    assert_eq!(request(&cli, "step"), Ok(CliRequest::Step));
    assert_eq!(request(&cli, "halt extra"), Ok(CliRequest::Halt));
    assert_eq!(request(&cli, "status"), Ok(CliRequest::Status));
    assert_eq!(request(&cli, "run"), Ok(CliRequest::Run));
    assert_eq!(request(&cli, "quit"), Ok(CliRequest::Quit));
    assert_eq!(request(&cli, "bt"), Ok(CliRequest::Bt));
    assert_eq!(request(&cli, "regs"), Ok(CliRequest::Regs));
    assert_eq!(request(&cli, "dump"), Ok(CliRequest::Dump));
    assert_eq!(request(&cli, "reset"), Ok(CliRequest::Reset));
}

#[test]
fn commands_with_arguments() {
    let cli = DebugCli::new();
    assert_eq!(request(&cli, "read 20000000"), Ok(CliRequest::Read { address: 0x2000_0000, num_words: 1 }));
    assert_eq!(request(&cli, "read 1f 16"), Ok(CliRequest::Read { address: 0x1f, num_words: 16 }));
    assert_eq!(request(&cli, "write 10 DEADbeef"), Ok(CliRequest::Write { address: 0x10, data: 0xdead_beef }));
    assert_eq!(request(&cli, "break +800"), Ok(CliRequest::Break { address: 0x800 }));
    assert_eq!(request(&cli, "clear_break 800"), Ok(CliRequest::ClearBreak { address: 0x800 }));
}

#[test]
fn argument_errors() {
    let cli = DebugCli::new();
    assert!(matches!(cli.handle_line("read"), Err(CliError::MissingArgument)));
    assert!(matches!(cli.handle_line("write 10"), Err(CliError::MissingArgument)));
    assert!(matches!(cli.handle_line("break zz"), Err(CliError::InvalidArgument)));
    assert!(matches!(cli.handle_line("read 100000000"), Err(CliError::InvalidArgument)));
    assert!(matches!(cli.handle_line("read 10 -1"), Err(CliError::InvalidArgument)));
}

#[test]
fn added_command_after_the_built_in_ones() {
    let mut cli = DebugCli::new();
    cli.add_command(Command { name: "step", help_text: "shadowed", kind: CommandKind::Quit });
    cli.add_command(Command { name: "again", help_text: "another quit", kind: CommandKind::Quit });
    assert_eq!(request(&cli, "step"), Ok(CliRequest::Step));
    assert_eq!(request(&cli, "again"), Ok(CliRequest::Quit));
}

#[test]
fn quit_stops() {
    assert_eq!(request_state(&CliRequest::Quit), CliState::Stop);
    assert_eq!(request_state(&CliRequest::Step), CliState::Continue);
}

#[test]
fn numbers_as_from_str_radix_reads_them() {
    assert_eq!(parse_radix("ff", 16, u32::MAX as u64), Some(255));
    assert_eq!(parse_radix("+17", 10, 100), Some(17));
    assert_eq!(parse_radix("101", 2, 100), Some(5));
    assert_eq!(parse_radix("", 10, 100), None);
    assert_eq!(parse_radix("+", 10, 100), None);
    assert_eq!(parse_radix("101", 10, 100), None);
    assert_eq!(parse_radix("1g", 16, 1000), None);
    assert_eq!(parse_radix("ffffffff", 16, u32::MAX as u64), Some(0xffff_ffff));
    assert_eq!(parse_radix("100000000", 16, u32::MAX as u64), None);
    assert_eq!(parse_radix("18446744073709551615", 10, u64::MAX), Some(u64::MAX));
}
