//! The command line of the interactive debugger: its commands and the
//! reading of a line into a request.

use vstd::prelude::*;

verus! {

/// Whether the debugger goes on after a command.
#[derive(Clone, Copy, Debug, PartialEq, Eq, Structural)]
pub enum CliState {
    Continue,
    Stop,
}

/// What can be wrong with a command line.
#[derive(Clone, Copy, Debug, PartialEq, Eq, Structural)]
pub enum CliError {
    /// A command lacks an argument.
    MissingArgument,
    /// An argument is not a number of the expected form.
    InvalidArgument,
}

/// The commands of the debugger.
#[derive(Clone, Copy, Debug, PartialEq, Eq, Structural)]
pub enum CommandKind {
    Step,
    Halt,
    Status,
    Run,
    Quit,
    Read,
    Write,
    Break,
    ClearBreak,
    Bt,
    Regs,
    Dump,
    Reset,
}

/// A command: its name, its help text and what it does.
#[derive(Clone, Copy, Debug)]
pub struct Command {
    pub name: &'static str,
    pub help_text: &'static str,
    pub kind: CommandKind,
}

/// A command line read into a request, with its arguments parsed.
#[derive(Clone, Copy, Debug, PartialEq, Eq, Structural)]
pub enum CliRequest {
    Step,
    Halt,
    Status,
    Run,
    Quit,
    Read { address: u32, num_words: usize },
    Write { address: u32, data: u32 },
    Break { address: u32 },
    ClearBreak { address: u32 },
    Bt,
    Regs,
    Dump,
    Reset,
}

/// What a line asks for.
#[derive(Clone, Debug)]
pub enum LineOutcome {
    /// The line holds no word.
    Empty,
    /// The names of the commands, for `help`.
    Help(Vec<&'static str>),
    /// No command has this name.
    Unknown(String),
    /// A command to run.
    Request(CliRequest),
}

/// The state after a request has been carried out: `quit` stops the debugger.
pub fn request_state(request: &CliRequest) -> (state: CliState)
    ensures
        state == (if *request is Quit {
            CliState::Stop
        } else {
            CliState::Continue
        }),
{
    match request {
        CliRequest::Quit => CliState::Stop,
        _ => CliState::Continue,
    }
}

/// A character of the Unicode property `White_Space`.
pub open spec fn is_white_space(c: char) -> bool {
    ||| '\u{9}' <= c <= '\u{d}'
    ||| c == ' '
    ||| c == '\u{85}'
    ||| c == '\u{a0}'
    ||| c == '\u{1680}'
    ||| '\u{2000}' <= c <= '\u{200a}'
    ||| c == '\u{2028}'
    ||| c == '\u{2029}'
    ||| c == '\u{202f}'
    ||| c == '\u{205f}'
    ||| c == '\u{3000}'
}

/// The word `current` when it is not empty.
pub open spec fn word_if_any(current: Seq<char>) -> Seq<Seq<char>> {
    if current.len() == 0 {
        Seq::empty()
    } else {
        seq![current]
    }
}

/// The words of `rest`, the first of them continuing `current`.
pub open spec fn words_from(rest: Seq<char>, current: Seq<char>) -> Seq<Seq<char>>
    decreases rest.len(),
{
    if rest.len() == 0 {
        word_if_any(current)
    } else if is_white_space(rest[0]) {
        word_if_any(current) + words_from(rest.drop_first(), Seq::empty())
    } else {
        words_from(rest.drop_first(), current.push(rest[0]))
    }
}

/// The words of a line: its maximal runs of characters that are not white space.
pub open spec fn whitespace_words(line: Seq<char>) -> Seq<Seq<char>> {
    words_from(line, Seq::empty())
}

/// Whether `c` is a `White_Space` character.
fn white_space(c: char) -> (r: bool)
    ensures
        r == is_white_space(c),
{
    ('\u{9}' <= c && c <= '\u{d}') || c == ' ' || c == '\u{85}' || c == '\u{a0}' || c == '\u{1680}'
        || ('\u{2000}' <= c && c <= '\u{200a}') || c == '\u{2028}' || c == '\u{2029}' || c
        == '\u{202f}' || c == '\u{205f}' || c == '\u{3000}'
}

/// Splits a line into its words: its maximal runs of characters that are not
/// white space, as `str::split_whitespace` splits it.
fn split_words(line: &str) -> (words: Vec<String>)
    ensures
        words_view(words@) == whitespace_words(line@),
{
    let n = line.unicode_len();
    let mut words: Vec<String> = Vec::new();
    let mut start: usize = 0;
    let mut i: usize = 0;
    assert(line@.skip(0) =~= line@);
    assert(line@.subrange(0, 0) =~= Seq::<char>::empty());
    assert(words_view(words@) =~= Seq::<Seq<char>>::empty());
    assert(words_view(words@) + words_from(line@.skip(0), line@.subrange(0, 0)) =~= whitespace_words(line@));
    while i < n
        invariant
            n == line@.len(),
            start <= i <= n,
            words_view(words@) + words_from(line@.skip(i as int), line@.subrange(start as int, i as int))
                == whitespace_words(line@),
        decreases n - i,
    {
        let c = line.get_char(i);
        let ghost rest = line@.skip(i as int);
        let ghost current = line@.subrange(start as int, i as int);
        assert(rest[0] == c);
        assert(rest.drop_first() =~= line@.skip(i + 1));
        if white_space(c) {
            let ghost before = words_view(words@);
            if start < i {
                let word = line.substring_char(start, i).to_owned();
                words.push(word);
                assert(words_view(words@) =~= before.push(current));
                assert(word_if_any(current) =~= seq![current]);
                assert(before + (word_if_any(current) + words_from(line@.skip(i + 1), Seq::empty())) =~= words_view(
                    words@,
                ) + words_from(line@.skip(i + 1), Seq::empty()));
            } else {
                assert(current.len() == 0);
                assert(word_if_any(current) =~= Seq::<Seq<char>>::empty());
                assert(before + (word_if_any(current) + words_from(line@.skip(i + 1), Seq::empty())) =~= before
                    + words_from(line@.skip(i + 1), Seq::empty()));
            }
            start = i + 1;
            assert(line@.subrange(start as int, (i + 1) as int) =~= Seq::<char>::empty());
        } else {
            assert(current.push(c) =~= line@.subrange(start as int, i + 1));
        }
        i = i + 1;
    }
    let ghost current = line@.subrange(start as int, n as int);
    assert(line@.skip(n as int) =~= Seq::<char>::empty());
    let ghost before = words_view(words@);
    if start < n {
        let word = line.substring_char(start, n).to_owned();
        words.push(word);
        assert(words_view(words@) =~= before.push(current));
        assert(word_if_any(current) =~= seq![current]);
    } else {
        assert(word_if_any(current) =~= Seq::<Seq<char>>::empty());
    }
    assert(words_view(words@) =~= before + word_if_any(current));
    words
}

/// The texts of a list of words.
pub open spec fn words_view(words: Seq<String>) -> Seq<Seq<char>> {
    words.map_values(|w: String| w@)
}

/// The value of a digit in base `radix`, if it is one.
pub open spec fn digit_value(c: char, radix: int) -> Option<int> {
    let v = if '0' <= c <= '9' {
        c as int - '0' as int
    } else if 'a' <= c <= 'z' {
        c as int - 'a' as int + 10
    } else if 'A' <= c <= 'Z' {
        c as int - 'A' as int + 10
    } else {
        radix
    };
    if v < radix {
        Some(v)
    } else {
        None
    }
}

/// The value of a run of digits in base `radix`, if all are digits.
pub open spec fn digits_value(s: Seq<char>, radix: int) -> Option<int>
    decreases s.len(),
{
    if s.len() == 0 {
        Some(0)
    } else {
        match (digits_value(s.drop_last(), radix), digit_value(s.last(), radix)) {
            (Some(high), Some(low)) => Some(high * radix + low),
            _ => None,
        }
    }
}

/// A number in base `radix` up to `max`, with an optional `+` in front, as
/// `from_str_radix` reads it for an unsigned type.
pub open spec fn parse_unsigned(s: Seq<char>, radix: int, max: int) -> Option<int> {
    let body = if s.len() > 0 && s[0] == '+' {
        s.drop_first()
    } else {
        s
    };
    if body.len() == 0 {
        None
    } else {
        match digits_value(body, radix) {
            Some(v) => if v <= max {
                Some(v)
            } else {
                None
            },
            None => None,
        }
    }
}

proof fn lemma_digits_value_nonneg(s: Seq<char>, radix: int)
    requires
        radix > 0,
    ensures
        digits_value(s, radix) matches Some(v) ==> v >= 0,
    decreases s.len(),
{
    if s.len() > 0 {
        lemma_digits_value_nonneg(s.drop_last(), radix);
        match (digits_value(s.drop_last(), radix), digit_value(s.last(), radix)) {
            (Some(high), Some(low)) => {
                assert(high * radix >= 0) by (nonlinear_arith)
                    requires
                        high >= 0,
                        radix > 0,
                ;
            },
            _ => {},
        }
    }
}

proof fn lemma_digits_value_grows(s: Seq<char>, radix: int, high: int, low: int)
    requires
        radix > 1,
        high >= 0,
        0 <= low < radix,
    ensures
        high * radix + low >= high,
{
    assert(high * radix + low >= high) by (nonlinear_arith)
        requires
            radix > 1,
            high >= 0,
            low >= 0,
    ;
}

fn char_digit(c: char, radix: u32) -> (d: Option<u32>)
    requires
        2 <= radix <= 36,
    ensures
        match digit_value(c, radix as int) {
            Some(v) => d == Some(v as u32),
            None => d is None,
        },
{
    let v: u32 = if '0' <= c && c <= '9' {
        (c as u32) - ('0' as u32)
    } else if 'a' <= c && c <= 'z' {
        (c as u32) - ('a' as u32) + 10
    } else if 'A' <= c && c <= 'Z' {
        (c as u32) - ('A' as u32) + 10
    } else {
        radix
    };
    if v < radix {
        Some(v)
    } else {
        None
    }
}

/// Reads an unsigned number in base `radix` up to `max`, as `from_str_radix` does.
pub fn parse_radix(s: &str, radix: u32, max: u64) -> (value: Option<u64>)
    requires
        2 <= radix <= 36,
    ensures
        match value {
            Some(v) => parse_unsigned(s@, radix as int, max as int) == Some(v as int) && v <= max,
            None => parse_unsigned(s@, radix as int, max as int) is None,
        },
{
    let n = s.unicode_len();
    let start: usize = if n > 0 && s.get_char(0) == '+' {
        1
    } else {
        0
    };
    let ghost body = if s@.len() > 0 && s@[0] == '+' {
        s@.drop_first()
    } else {
        s@
    };
    assert(body =~= s@.subrange(start as int, n as int));
    assert(start == 1 <==> (s@.len() > 0 && s@[0] == '+'));
    if start == n {
        assert(body.len() == 0);
        return None;
    }
    let mut value: u64 = 0;
    let mut i = start;
    while i < n
        invariant
            n == s@.len(),
            start <= i <= n,
            body == s@.subrange(start as int, n as int),
            body == (if s@.len() > 0 && s@[0] == '+' {
                s@.drop_first()
            } else {
                s@
            }),
            start < n,
            2 <= radix <= 36,
            digits_value(s@.subrange(start as int, i as int), radix as int) == Some(value as int),
            value <= max,
        decreases n - i,
    {
        let c = s.get_char(i);
        let ghost prefix = s@.subrange(start as int, i + 1);
        assert(prefix.drop_last() =~= s@.subrange(start as int, i as int));
        assert(prefix.last() == c);
        match char_digit(c, radix) {
            None => {
                proof {
                    assert(s@.subrange(start as int, n as int).take(i - start + 1) =~= prefix);
                    lemma_digits_stay_none(s@.subrange(start as int, n as int), radix as int, i - start + 1);
                }
                return None;
            },
            Some(d) => {
                if d as u64 > max || value > (max - d as u64) / radix as u64 {
                    proof {
                        if d <= max {
                            assert(value * radix + d > max) by (nonlinear_arith)
                                requires
                                    value > (max - d) / (radix as int),
                                    radix > 0,
                                    d <= max,
                            ;
                        } else {
                            assert(value * radix >= 0) by (nonlinear_arith)
                                requires
                                    value >= 0,
                                    radix > 0,
                            ;
                        }
                        assert(s@.subrange(start as int, n as int).take(i - start + 1) =~= prefix);
                        lemma_digits_stay_large(s@.subrange(start as int, n as int), radix as int, i - start + 1, max as int);
                        assert(digits_value(body, radix as int) matches Some(v) ==> v > max);
                    }
                    return None;
                }
                proof {
                    assert(value * radix + d <= max) by (nonlinear_arith)
                        requires
                            value <= (max - d) / (radix as int),
                            radix > 0,
                            d <= max,
                    ;
                }
                value = value * radix as u64 + d as u64;
            },
        }
        i = i + 1;
    }
    Some(value)
}

proof fn lemma_digits_stay_none(s: Seq<char>, radix: int, k: int)
    requires
        radix > 1,
        0 < k <= s.len(),
        digits_value(s.take(k), radix) is None,
    ensures
        digits_value(s, radix) is None,
    decreases s.len() - k,
{
    if k < s.len() {
        assert(s.take(k + 1).drop_last() =~= s.take(k));
        lemma_digits_stay_none(s, radix, k + 1);
    } else {
        assert(s.take(k) =~= s);
    }
}

proof fn lemma_digits_stay_large(s: Seq<char>, radix: int, k: int, max: int)
    requires
        radix > 1,
        0 < k <= s.len(),
        digits_value(s.take(k), radix) matches Some(v) ==> v > max,
        max >= 0,
    ensures
        digits_value(s, radix) matches Some(v) ==> v > max,
    decreases s.len() - k,
{
    if k < s.len() {
        assert(s.take(k + 1).drop_last() =~= s.take(k));
        assert(s.take(k + 1).last() == s[k]);
        match (digits_value(s.take(k), radix), digit_value(s[k], radix)) {
            (Some(high), Some(low)) => {
                lemma_digits_value_grows(s, radix, high, low);
            },
            _ => {},
        }
        lemma_digits_stay_large(s, radix, k + 1, max);
    } else {
        assert(s.take(k) =~= s);
    }
}


/// The debugger's command line: its list of commands.
pub struct DebugCli {
    commands: Vec<Command>,
}

/// The names of the commands, in the order they are listed.
pub open spec fn command_names() -> Seq<Seq<char>> {
    seq![
        "step"@,
        "halt"@,
        "status"@,
        "run"@,
        "quit"@,
        "read"@,
        "write"@,
        "break"@,
        "clear_break"@,
        "bt"@,
        "regs"@,
        "dump"@,
        "reset"@,
    ]
}

/// What the commands do, in the same order.
pub open spec fn command_kinds() -> Seq<CommandKind> {
    seq![
        CommandKind::Step,
        CommandKind::Halt,
        CommandKind::Status,
        CommandKind::Run,
        CommandKind::Quit,
        CommandKind::Read,
        CommandKind::Write,
        CommandKind::Break,
        CommandKind::ClearBreak,
        CommandKind::Bt,
        CommandKind::Regs,
        CommandKind::Dump,
        CommandKind::Reset,
    ]
}

/// The first command with the given name.
pub open spec fn first_command(commands: Seq<Command>, name: Seq<char>, from: int) -> Option<int>
    decreases commands.len() - from,
{
    if from < 0 || from >= commands.len() {
        None
    } else if commands[from].name@ == name {
        Some(from)
    } else {
        first_command(commands, name, from + 1)
    }
}

/// Argument `i`, read as a hexadecimal 32-bit number.
pub open spec fn hex_argument(args: Seq<Seq<char>>, i: int) -> Result<u32, CliError> {
    if i >= args.len() {
        Err(CliError::MissingArgument)
    } else {
        match parse_unsigned(args[i], 16, u32::MAX as int) {
            Some(v) => Ok(v as u32),
            None => Err(CliError::InvalidArgument),
        }
    }
}

/// The request of a command with its arguments.
pub open spec fn spec_request(kind: CommandKind, args: Seq<Seq<char>>) -> Result<CliRequest, CliError> {
    match kind {
        CommandKind::Step => Ok(CliRequest::Step),
        CommandKind::Halt => Ok(CliRequest::Halt),
        CommandKind::Status => Ok(CliRequest::Status),
        CommandKind::Run => Ok(CliRequest::Run),
        CommandKind::Quit => Ok(CliRequest::Quit),
        CommandKind::Read => match hex_argument(args, 0) {
            Err(e) => Err(e),
            Ok(address) => if args.len() > 1 {
                match parse_unsigned(args[1], 10, usize::MAX as int) {
                    Some(n) => Ok(CliRequest::Read { address, num_words: n as usize }),
                    None => Err(CliError::InvalidArgument),
                }
            } else {
                Ok(CliRequest::Read { address, num_words: 1 })
            },
        },
        CommandKind::Write => match hex_argument(args, 0) {
            Err(e) => Err(e),
            Ok(address) => match hex_argument(args, 1) {
                Err(e) => Err(e),
                Ok(data) => Ok(CliRequest::Write { address, data }),
            },
        },
        CommandKind::Break => match hex_argument(args, 0) {
            Err(e) => Err(e),
            Ok(address) => Ok(CliRequest::Break { address }),
        },
        CommandKind::ClearBreak => match hex_argument(args, 0) {
            Err(e) => Err(e),
            Ok(address) => Ok(CliRequest::ClearBreak { address }),
        },
        CommandKind::Bt => Ok(CliRequest::Bt),
        CommandKind::Regs => Ok(CliRequest::Regs),
        CommandKind::Dump => Ok(CliRequest::Dump),
        CommandKind::Reset => Ok(CliRequest::Reset),
    }
}

fn hex_arg(args: &Vec<String>, i: usize) -> (r: Result<u32, CliError>)
    ensures
        r == hex_argument(words_view(args@), i as int),
{
    let ghost views = words_view(args@);
    if i >= args.len() {
        return Err(CliError::MissingArgument);
    }
    assert(views[i as int] == args@[i as int]@);
    let word = args[i].as_str();
    assert(word@ == views[i as int]);
    let parsed = parse_radix(word, 16, 0xffff_ffff);
    assert(parse_unsigned(word@, 16, 0xffff_ffff) == parse_unsigned(views[i as int], 16, u32::MAX as int));
    match parsed {
        Some(v) => {
            assert(parse_unsigned(views[i as int], 16, u32::MAX as int) == Some(v as int));
            Ok(v as u32)
        },
        None => Err(CliError::InvalidArgument),
    }
}

fn parse_request(kind: CommandKind, args: &Vec<String>) -> (r: Result<CliRequest, CliError>)
    ensures
        r == spec_request(kind, words_view(args@)),
{
    let ghost views = words_view(args@);
    match kind {
        CommandKind::Step => Ok(CliRequest::Step),
        CommandKind::Halt => Ok(CliRequest::Halt),
        CommandKind::Status => Ok(CliRequest::Status),
        CommandKind::Run => Ok(CliRequest::Run),
        CommandKind::Quit => Ok(CliRequest::Quit),
        CommandKind::Read => {
            let address = hex_arg(args, 0)?;
            if args.len() > 1 {
                assert(views[1] == args@[1]@);
                match parse_radix(args[1].as_str(), 10, usize::MAX as u64) {
                    Some(n) => Ok(CliRequest::Read { address, num_words: n as usize }),
                    None => Err(CliError::InvalidArgument),
                }
            } else {
                Ok(CliRequest::Read { address, num_words: 1 })
            }
        },
        CommandKind::Write => {
            let address = hex_arg(args, 0)?;
            let data = hex_arg(args, 1)?;
            Ok(CliRequest::Write { address, data })
        },
        CommandKind::Break => {
            let address = hex_arg(args, 0)?;
            Ok(CliRequest::Break { address })
        },
        CommandKind::ClearBreak => {
            let address = hex_arg(args, 0)?;
            Ok(CliRequest::ClearBreak { address })
        },
        CommandKind::Bt => Ok(CliRequest::Bt),
        CommandKind::Regs => Ok(CliRequest::Regs),
        CommandKind::Dump => Ok(CliRequest::Dump),
        CommandKind::Reset => Ok(CliRequest::Reset),
    }
}

/// What a line asks for, as a mathematical value.
pub enum OutcomeView {
    Empty,
    Help(Seq<Seq<char>>),
    Unknown(Seq<char>),
    Request(CliRequest),
}

impl View for LineOutcome {
    type V = OutcomeView;

    open spec fn view(&self) -> OutcomeView {
        match self {
            LineOutcome::Empty => OutcomeView::Empty,
            LineOutcome::Help(names) => OutcomeView::Help(names@.map_values(|n: &'static str| n@)),
            LineOutcome::Unknown(name) => OutcomeView::Unknown(name@),
            LineOutcome::Request(r) => OutcomeView::Request(*r),
        }
    }
}

/// What the words of a line ask for: nothing for no word, the command names
/// for `help`, the first command of that name with its arguments, or an
/// unknown command.
pub open spec fn spec_handle(commands: Seq<Command>, words: Seq<Seq<char>>) -> Result<OutcomeView, CliError> {
    if words.len() == 0 {
        Ok(OutcomeView::Empty)
    } else if words[0] == "help"@ {
        Ok(OutcomeView::Help(commands.map_values(|c: Command| c.name@)))
    } else {
        match first_command(commands, words[0], 0) {
            None => Ok(OutcomeView::Unknown(words[0])),
            Some(i) => match spec_request(commands[i].kind, words.drop_first()) {
                Ok(r) => Ok(OutcomeView::Request(r)),
                Err(e) => Err(e),
            },
        }
    }
}

proof fn lemma_first_command(commands: Seq<Command>, name: Seq<char>, from: int)
    ensures
        first_command(commands, name, from) matches Some(i) ==> from <= i < commands.len(),
    decreases commands.len() - from,
{
    if 0 <= from < commands.len() && commands[from].name@ != name {
        lemma_first_command(commands, name, from + 1);
    }
}

fn str_eq(a: &str, b: &str) -> (r: bool)
    ensures
        r == (a@ == b@),
{
    let n = a.unicode_len();
    let m = b.unicode_len();
    if n != m {
        return false;
    }
    let mut i: usize = 0;
    while i < n
        invariant
            n == a@.len(),
            m == b@.len(),
            n == m,
            0 <= i <= n,
            forall|k: int| 0 <= k < i ==> a@[k] == b@[k],
        decreases n - i,
    {
        if a.get_char(i) != b.get_char(i) {
            return false;
        }
        i = i + 1;
    }
    assert(a@ =~= b@);
    true
}

impl DebugCli {
    pub closed spec fn spec_commands(&self) -> Seq<Command> {
        self.commands@
    }

    /// The debugger's command line with its commands: step, halt, status,
    /// run, quit, read, write, break, clear_break, bt, regs, dump and reset.
    pub fn new() -> (cli: DebugCli)
        ensures
            cli.spec_commands().map_values(|c: Command| c.name@) == command_names(),
            cli.spec_commands().map_values(|c: Command| c.kind) == command_kinds(),
    {
        let mut cli = DebugCli { commands: Vec::new() };
        cli.add_command(Command { name: "step", help_text: "Step a single instruction", kind: CommandKind::Step });
        cli.add_command(Command { name: "halt", help_text: "Stop the CPU", kind: CommandKind::Halt });
        cli.add_command(Command { name: "status", help_text: "Show current status of CPU", kind: CommandKind::Status });
        cli.add_command(Command { name: "run", help_text: "Resume execution of the CPU", kind: CommandKind::Run });
        cli.add_command(Command { name: "quit", help_text: "Exit the program", kind: CommandKind::Quit });
        cli.add_command(Command { name: "read", help_text: "Read 32bit value from memory", kind: CommandKind::Read });
        cli.add_command(Command { name: "write", help_text: "Write a 32bit value to memory", kind: CommandKind::Write });
        cli.add_command(Command { name: "break", help_text: "Set a breakpoint at a specifc address", kind: CommandKind::Break });
        cli.add_command(Command { name: "clear_break", help_text: "Clear a breakpoint", kind: CommandKind::ClearBreak });
        cli.add_command(Command { name: "bt", help_text: "Show backtrace", kind: CommandKind::Bt });
        cli.add_command(Command { name: "regs", help_text: "Show CPU register values", kind: CommandKind::Regs });
        cli.add_command(Command { name: "dump", help_text: "Store a dump of the current CPU state", kind: CommandKind::Dump });
        cli.add_command(Command { name: "reset", help_text: "Reset the CPU", kind: CommandKind::Reset });
        assert(cli.commands@.map_values(|c: Command| c.name@) =~= command_names());
        assert(cli.commands@.map_values(|c: Command| c.kind) =~= command_kinds());
        cli
    }

    /// Adds a command at the end of the list.
    pub fn add_command(&mut self, command: Command)
        ensures
            final(self).spec_commands() == old(self).spec_commands().push(command),
    {
        self.commands.push(command)
    }

    /// Reads a line: no word asks for nothing; `help` for the names of the
    /// commands; a command's name for that command with its arguments read.
    #[verifier::loop_isolation(false)]
    pub fn handle_line(&self, line: &str) -> (outcome: Result<LineOutcome, CliError>)
        ensures
            match spec_handle(self.spec_commands(), whitespace_words(line@)) {
                Ok(v) => outcome matches Ok(o) && o@ == v,
                Err(e) => outcome == Err::<LineOutcome, CliError>(e),
            },
    {
        let words = split_words(line);
        let ghost views = words_view(words@);
        if words.len() == 0 {
            return Ok(LineOutcome::Empty);
        }
        let command = words[0].as_str();
        assert(views[0] == command@);
        if str_eq(command, "help") {
            let mut names: Vec<&'static str> = Vec::new();
            let mut i: usize = 0;
            while i < self.commands.len()
                invariant
                    0 <= i <= self.commands@.len(),
                    names@.map_values(|n: &'static str| n@) =~= self.commands@.take(i as int).map_values(
                        |c: Command| c.name@,
                    ),
                decreases self.commands@.len() - i,
            {
                let ghost before = names@;
                names.push(self.commands[i].name);
                assert(names@.map_values(|n: &'static str| n@) =~= before.map_values(|n: &'static str| n@).push(self.commands@[i as int].name@));
                assert(self.commands@.take(i + 1).map_values(|c: Command| c.name@) =~= self.commands@.take(i as int).map_values(|c: Command| c.name@).push(self.commands@[i as int].name@));
                i = i + 1;
                assert(names@.map_values(|n: &'static str| n@) =~= self.commands@.take(i as int).map_values(
                    |c: Command| c.name@,
                ));
            }
            assert(self.commands@.take(self.commands@.len() as int) =~= self.commands@);
            return Ok(LineOutcome::Help(names));
        }
        let mut i: usize = 0;
        while i < self.commands.len()
            invariant
                0 <= i <= self.commands@.len(),
                first_command(self.commands@, command@, i as int) == first_command(
                    self.commands@,
                    command@,
                    0,
                ),
            decreases self.commands@.len() - i,
        {
            if str_eq(self.commands[i].name, command) {
                let mut args: Vec<String> = Vec::new();
                let mut k: usize = 1;
                while k < words.len()
                    invariant
                        1 <= k <= words@.len(),
                        words_view(args@) =~= views.subrange(1, k as int),
                        views == words_view(words@),
                    decreases words@.len() - k,
                {
                    args.push(words[k].clone());
                    k = k + 1;
                    assert(words_view(args@) =~= views.subrange(1, k as int));
                }
                assert(views.subrange(1, views.len() as int) =~= views.drop_first());
                return match parse_request(self.commands[i].kind, &args) {
                    Ok(r) => Ok(LineOutcome::Request(r)),
                    Err(e) => Err(e),
                };
            }
            i = i + 1;
        }
        Ok(LineOutcome::Unknown(words[0].clone()))
    }
}

} // verus!
