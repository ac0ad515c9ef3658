//! Collection of the critical options and arguments supplied at startup: the
//! error type, the flag set, and the parser that folds the raw argument
//! strings into a command template, the option values, and the input lists.
//!
//! The parser is specified as a small-step fold: `step` says what one
//! argument does to the parse state, `run_args` folds it over the argument
//! vector, and `Args::parse` is proved to land exactly where the fold lands.
//! Reading input files and standard input is left to the caller: file
//! arguments come back as `InputItem::File` entries to resolve.

use vstd::prelude::*;
use crate::tokens::{Token, tokenize, tokenize_spec};

verus! {

/// The error type for the argument module.
#[derive(Debug, PartialEq)]
pub enum ParseErr {
    /// An error occured opening an input file.
    InputFileError(String, String),
    /// The value supplied for `--jobs` is not a number.
    JobsNaN(String),
    /// No value was supplied for `--jobs`.
    JobsNoValue,
    /// The argument supplied is not a valid argument.
    InvalidArgument(String),
    /// No arguments were given to the program.
    NoArguments,
}

/// The mathematical value of a parse error.
pub ghost enum ErrSpec {
    InputFileError(Seq<char>, Seq<char>),
    JobsNaN(Seq<char>),
    JobsNoValue,
    InvalidArgument(Seq<char>),
    NoArguments,
}

impl View for ParseErr {
    type V = ErrSpec;

    open spec fn view(&self) -> ErrSpec {
        match self {
            ParseErr::InputFileError(f, w) => ErrSpec::InputFileError(f@, w@),
            ParseErr::JobsNaN(v) => ErrSpec::JobsNaN(v@),
            ParseErr::JobsNoValue => ErrSpec::JobsNoValue,
            ParseErr::InvalidArgument(a) => ErrSpec::InvalidArgument(a@),
            ParseErr::NoArguments => ErrSpec::NoArguments,
        }
    }
}

/// The full diagnostic line each error is reported with.
pub open spec fn message_spec(e: ErrSpec) -> Seq<char> {
    match e {
        ErrSpec::InputFileError(f, w) => "parallel: parsing error: unable to open "@ + f + ": "@
            + w + "\n"@,
        ErrSpec::JobsNaN(v) => "parallel: parsing error: jobs parameter, '"@ + v
            + "', is not a number.\n"@,
        ErrSpec::JobsNoValue => "parallel: parsing error: no jobs parameter was defined.\n"@,
        ErrSpec::InvalidArgument(a) => "parallel: parsing error: invalid argument: "@ + a + "\n"@,
        ErrSpec::NoArguments => "parallel: parsing error: no input arguments were given.\n"@,
    }
}

impl ParseErr {
    /// The diagnostic line for this error, as it is written to the tool's
    /// standard error before the run exits.
    pub fn message(&self) -> (r: String)
        ensures
            r@ == message_spec(self@),
    {
        match self {
            ParseErr::InputFileError(f, w) => String::from_str(
                "parallel: parsing error: unable to open ",
            ).concat(f.as_str()).concat(": ").concat(w.as_str()).concat("\n"),
            ParseErr::JobsNaN(v) => String::from_str(
                "parallel: parsing error: jobs parameter, '",
            ).concat(v.as_str()).concat("', is not a number.\n"),
            ParseErr::JobsNoValue => String::from_str(
                "parallel: parsing error: no jobs parameter was defined.\n",
            ),
            ParseErr::InvalidArgument(a) => String::from_str(
                "parallel: parsing error: invalid argument: ",
            ).concat(a.as_str()).concat("\n"),
            ParseErr::NoArguments => String::from_str(
                "parallel: parsing error: no input arguments were given.\n",
            ),
        }
    }
}

/// The boolean options that shape a run.
#[derive(Clone)]
pub struct Flags {
    /// Whether the output of each job is grouped and re-serialised in input
    /// order, or streamed live and interleaved.
    pub grouped: bool,
    /// Whether the inputs are themselves complete commands.
    pub inputs_are_commands: bool,
    /// Whether jobs run through a shell or as a direct argument vector.
    pub uses_shell: bool,
    /// Suppress informational output.
    pub quiet: bool,
    /// Enable informational output.
    pub verbose: bool,
}

impl Flags {
    /// The defaults: grouped output through a shell, nothing suppressed.
    pub fn new() -> (f: Flags)
        ensures
            f.grouped,
            f.uses_shell,
            !f.quiet,
            !f.verbose,
            !f.inputs_are_commands,
    {
        Flags {
            grouped: true,
            uses_shell: true,
            quiet: false,
            verbose: false,
            inputs_are_commands: false,
        }
    }
}

/// One element of an input list as the command line gave it: an inline value,
/// or the path of a file whose lines are the values.
#[derive(Debug, PartialEq)]
pub enum InputItem {
    Value(String),
    File(String),
}

/// The mathematical value of an input-list element.
pub ghost enum ItemSpec {
    Value(Seq<char>),
    File(Seq<char>),
}

impl DeepView for InputItem {
    type V = ItemSpec;

    open spec fn deep_view(&self) -> ItemSpec {
        match self {
            InputItem::Value(s) => ItemSpec::Value(s@),
            InputItem::File(s) => ItemSpec::File(s@),
        }
    }
}

/// What the parser asks the caller to do next.
#[derive(Debug, PartialEq)]
pub enum ParseOutcome {
    /// Run: the collected input lists, file entries still to be resolved.
    Run(Vec<Vec<InputItem>>),
    /// Emit the man page and exit.
    Help,
    /// Emit the version lines and exit.
    Version,
    /// Emit the detected core count and exit.
    NumCores,
}

/// A decimal digit.
pub open spec fn is_digit(c: char) -> bool {
    '0' <= c && c <= '9'
}

pub open spec fn digit_val(c: char) -> nat {
    (c as int - '0' as int) as nat
}

/// The number the digit string stands for.
pub open spec fn dec_value(s: Seq<char>) -> nat
    decreases s.len(),
{
    if s.len() == 0 {
        0
    } else {
        dec_value(s.drop_last()) * 10 + digit_val(s.last())
    }
}

/// The digits of a jobs value: an optional leading plus sign is accepted.
pub open spec fn jobs_digits(s: Seq<char>) -> Seq<char> {
    if s.len() > 0 && s[0] == '+' {
        s.skip(1)
    } else {
        s
    }
}

/// Whether the string is a well-formed jobs count that fits the machine.
pub open spec fn is_jobs_number(s: Seq<char>) -> bool {
    let d = jobs_digits(s);
    &&& d.len() > 0
    &&& forall|k: int| 0 <= k < d.len() ==> is_digit(#[trigger] d[k])
    &&& dec_value(d) <= usize::MAX
}

/// The jobs count a well-formed string stands for.
pub open spec fn jobs_value(s: Seq<char>) -> nat {
    dec_value(jobs_digits(s))
}

/// A longer digit prefix never stands for a smaller number.
proof fn lemma_dec_value_extend(d: Seq<char>, i: int, j: int)
    requires
        0 <= i <= j <= d.len(),
    ensures
        dec_value(d.take(i)) <= dec_value(d.take(j)),
    decreases j - i,
{
    if i < j {
        lemma_dec_value_extend(d, i, j - 1);
        assert(d.take(j).drop_last() =~= d.take(j - 1));
        assert(dec_value(d.take(j)) == dec_value(d.take(j - 1)) * 10 + digit_val(d.take(j).last()));
    }
}

/// Parse a `--jobs` value: the number it denotes, or the error naming the
/// text that is not a number (or does not fit the machine).
pub fn parse_jobs(s: &str) -> (r: Result<usize, ParseErr>)
    ensures
        is_jobs_number(s@) ==> (r matches Ok(n) && n == jobs_value(s@)),
        !is_jobs_number(s@) ==> (r matches Err(e) && e@ == ErrSpec::JobsNaN(s@)),
{
    let len = s.unicode_len();
    let start: usize = if len > 0 && s.get_char(0) == '+' {
        1
    } else {
        0
    };
    let ghost d = jobs_digits(s@);
    proof {
        assert(d =~= s@.skip(start as int));
    }
    if start >= len {
        return Err(ParseErr::JobsNaN(String::from_str(s)));
    }
    let mut val: usize = 0;
    let mut i: usize = start;
    while i < len
        invariant
            start <= i <= len,
            len == s@.len(),
            d == s@.skip(start as int),
            d == jobs_digits(s@),
            d.len() == len - start,
            forall|k: int| 0 <= k < i - start ==> is_digit(#[trigger] d[k]),
            val == dec_value(d.take(i - start)),
        decreases len - i,
    {
        let c = s.get_char(i);
        proof {
            assert(d[i - start] == s@[i as int]);
        }
        if c < '0' || c > '9' {
            proof {
                assert(0 <= i - start < d.len());
                assert(!is_digit(d[i - start]));
                assert(jobs_digits(s@) == d);
                assert(!(forall|k: int|
                    0 <= k < jobs_digits(s@).len() ==> is_digit(
                        #[trigger] jobs_digits(s@)[k],
                    ))) by {
                    assert(!is_digit(jobs_digits(s@)[i - start]));
                }
                assert(!is_jobs_number(s@));
            }
            return Err(ParseErr::JobsNaN(String::from_str(s)));
        }
        let dv = (c as u32 - '0' as u32) as usize;
        proof {
            assert(d.take(i - start + 1).drop_last() =~= d.take(i - start));
            assert(d.take(i - start + 1).last() == d[i - start]);
            assert(digit_val(d[i - start]) == dv);
            assert(dec_value(d.take(i - start + 1)) == val * 10 + dv);
        }
        let big = match val.checked_mul(10) {
            Some(v10) => v10.checked_add(dv),
            None => None,
        };
        match big {
            Some(v) => {
                val = v;
            },
            None => {
                proof {
                    assert(val * 10 + dv > usize::MAX);
                    assert(dec_value(d.take(i - start + 1)) > usize::MAX);
                    lemma_dec_value_extend(d, i - start + 1, d.len() as int);
                    assert(d.take(d.len() as int) =~= d);
                    assert(dec_value(d.take(d.len() as int)) == dec_value(d));
                    assert(dec_value(d) > usize::MAX);
                    assert(jobs_digits(s@) == d);
                    assert(dec_value(jobs_digits(s@)) > usize::MAX);
                    assert(!is_jobs_number(s@));
                }
                return Err(ParseErr::JobsNaN(String::from_str(s)));
            },
        }
        i = i + 1;
    }
    proof {
        assert(d.take(d.len() as int) =~= d);
    }
    Ok(val)
}

/// Whether two strings hold the same characters.
fn str_eq(a: &str, b: &str) -> (r: bool)
    ensures
        r == (a@ == b@),
{
    let la = a.unicode_len();
    let lb = b.unicode_len();
    if la != lb {
        return false;
    }
    let mut i: usize = 0;
    while i < la
        invariant
            0 <= i <= la,
            la == a@.len(),
            la == b@.len(),
            forall|k: int| 0 <= k < i ==> a@[k] == b@[k],
        decreases la - i,
    {
        if a.get_char(i) != b.get_char(i) {
            return false;
        }
        i = i + 1;
    }
    proof {
        assert(a@ =~= b@);
    }
    true
}

/// Which kind of argument the parser expects next.
enum Mode {
    Arguments,
    Command,
    Inputs,
    Files,
    AwaitJobs,
}

/// The mathematical value of the parser's mode.
pub ghost enum PMode {
    Arguments,
    Command,
    Inputs,
    Files,
    AwaitJobs,
}

impl View for Mode {
    type V = PMode;

    closed spec fn view(&self) -> PMode {
        match self {
            Mode::Arguments => PMode::Arguments,
            Mode::Command => PMode::Command,
            Mode::Inputs => PMode::Inputs,
            Mode::Files => PMode::Files,
            Mode::AwaitJobs => PMode::AwaitJobs,
        }
    }
}

/// The parser's whole state between two arguments.
pub ghost struct PState {
    pub mode: PMode,
    pub grouped: bool,
    pub uses_shell: bool,
    pub quiet: bool,
    pub verbose: bool,
    pub inputs_are_commands: bool,
    pub ncores: usize,
    pub comm: Seq<char>,
    pub lists: Seq<Seq<ItemSpec>>,
    pub current: Seq<ItemSpec>,
}

/// Why the fold stopped before the end of the arguments.
pub ghost enum PHalt {
    Fail(ErrSpec),
    Help,
    Version,
    NumCores,
}

/// What one argument does: carry the state on, or stop with the state as it
/// stood.
pub ghost enum PStep {
    Cont(PState),
    Halt(PHalt, PState),
}

/// Where the fold over all arguments lands.
pub ghost enum PEnd {
    Finished(PState),
    Halted(PHalt, PState),
}

/// The current list is sealed into the collection, unless it is empty.
pub open spec fn push_current(st: PState) -> Seq<Seq<ItemSpec>> {
    if st.current.len() > 0 {
        st.lists.push(st.current)
    } else {
        st.lists
    }
}

/// One short option character after the leading dash.
pub open spec fn short_flags(st: PState, a: Seq<char>, i: int) -> PStep
    decreases a.len() - i,
{
    if i < 0 || i >= a.len() {
        PStep::Cont(st)
    } else {
        let c = a[i];
        if c == 'h' {
            PStep::Halt(PHalt::Help, st)
        } else if c == 'n' {
            short_flags(PState { uses_shell: false, ..st }, a, i + 1)
        } else if c == 'u' {
            short_flags(PState { grouped: false, ..st }, a, i + 1)
        } else if c == 'q' {
            short_flags(PState { quiet: true, ..st }, a, i + 1)
        } else if c == 'v' {
            short_flags(PState { verbose: true, ..st }, a, i + 1)
        } else {
            PStep::Halt(PHalt::Fail(ErrSpec::InvalidArgument(a)), st)
        }
    }
}

/// A long option, after the two leading dashes.
pub open spec fn step_long(st: PState, a: Seq<char>) -> PStep {
    let o = a.skip(2);
    if o == "help"@ {
        PStep::Halt(PHalt::Help, st)
    } else if o == "jobs"@ {
        PStep::Cont(PState { mode: PMode::AwaitJobs, ..st })
    } else if o == "ungroup"@ {
        PStep::Cont(PState { grouped: false, ..st })
    } else if o == "no-shell"@ {
        PStep::Cont(PState { uses_shell: false, ..st })
    } else if o == "num-cpu-cores"@ {
        PStep::Halt(PHalt::NumCores, st)
    } else if o == "quiet"@ {
        PStep::Cont(PState { quiet: true, ..st })
    } else if o == "verbose"@ {
        PStep::Cont(PState { verbose: true, ..st })
    } else if o == "version"@ {
        PStep::Halt(PHalt::Version, st)
    } else {
        PStep::Halt(PHalt::Fail(ErrSpec::InvalidArgument(a)), st)
    }
}

/// One argument while options and the command are still being collected.
pub open spec fn step_arguments(st: PState, a: Seq<char>) -> PStep {
    if a.len() == 0 {
        PStep::Halt(PHalt::Fail(ErrSpec::InvalidArgument(a)), st)
    } else if a[0] == '-' {
        if a.len() == 1 {
            PStep::Halt(PHalt::Fail(ErrSpec::InvalidArgument(a)), st)
        } else if a[1] == 'j' {
            if a.len() > 2 {
                if is_jobs_number(a.skip(2)) {
                    PStep::Cont(PState { ncores: jobs_value(a.skip(2)) as usize, ..st })
                } else {
                    PStep::Halt(PHalt::Fail(ErrSpec::JobsNaN(a.skip(2))), st)
                }
            } else {
                PStep::Cont(PState { mode: PMode::AwaitJobs, ..st })
            }
        } else if a[1] != '-' {
            short_flags(st, a, 1)
        } else {
            step_long(st, a)
        }
    } else if a == ":::"@ {
        PStep::Cont(PState { mode: PMode::Inputs, inputs_are_commands: true, ..st })
    } else if a == "::::"@ {
        PStep::Cont(PState { mode: PMode::Files, inputs_are_commands: true, ..st })
    } else {
        PStep::Cont(PState { mode: PMode::Command, comm: st.comm + a, ..st })
    }
}

/// One argument once the command string has begun.
pub open spec fn step_command(st: PState, a: Seq<char>) -> PStep {
    if a == ":::"@ || a == ":::+"@ {
        PStep::Cont(PState { mode: PMode::Inputs, ..st })
    } else if a == "::::"@ || a == "::::+"@ {
        PStep::Cont(PState { mode: PMode::Files, ..st })
    } else {
        PStep::Cont(PState { comm: st.comm + " "@ + a, ..st })
    }
}

/// One argument while input lists are being collected; values are inline in
/// `Inputs` mode and name files of inputs in `Files` mode.
pub open spec fn step_inputs(st: PState, a: Seq<char>) -> PStep {
    if a == ":::"@ {
        PStep::Cont(
            PState { mode: PMode::Inputs, lists: push_current(st), current: Seq::empty(), ..st },
        )
    } else if a == ":::+"@ {
        PStep::Cont(PState { mode: PMode::Inputs, ..st })
    } else if a == "::::"@ {
        PStep::Cont(
            PState { mode: PMode::Files, lists: push_current(st), current: Seq::empty(), ..st },
        )
    } else if a == "::::+"@ {
        PStep::Cont(PState { mode: PMode::Files, ..st })
    } else if st.mode is Inputs {
        PStep::Cont(PState { current: st.current.push(ItemSpec::Value(a)), ..st })
    } else {
        PStep::Cont(PState { current: st.current.push(ItemSpec::File(a)), ..st })
    }
}

/// What one argument does to the parse state.
pub open spec fn step(st: PState, a: Seq<char>) -> PStep {
    match st.mode {
        PMode::Arguments => step_arguments(st, a),
        PMode::Command => step_command(st, a),
        PMode::Inputs => step_inputs(st, a),
        PMode::Files => step_inputs(st, a),
        PMode::AwaitJobs => if is_jobs_number(a) {
            PStep::Cont(
                PState { ncores: jobs_value(a) as usize, mode: PMode::Arguments, ..st },
            )
        } else {
            PStep::Halt(PHalt::Fail(ErrSpec::JobsNaN(a)), st)
        },
    }
}

/// The fold of `step` over the arguments from position `i` on.
pub open spec fn run_args(st: PState, args: Seq<Seq<char>>, i: int) -> PEnd
    decreases args.len() - i,
{
    if i < 0 || i >= args.len() {
        PEnd::Finished(st)
    } else {
        match step(st, args[i]) {
            PStep::Cont(st2) => run_args(st2, args, i + 1),
            PStep::Halt(h, st2) => PEnd::Halted(h, st2),
        }
    }
}

/// The state before the first argument: the defaults, with the mode chosen by
/// peeking at the first argument, as inputs may come without a command.
pub open spec fn init_state(flags: Flags, ncores: usize, first: Seq<char>) -> PState {
    let inputs_first = first == ":::"@;
    let files_first = first == "::::"@;
    PState {
        mode: if inputs_first {
            PMode::Inputs
        } else if files_first {
            PMode::Files
        } else {
            PMode::Arguments
        },
        grouped: flags.grouped,
        uses_shell: flags.uses_shell,
        quiet: flags.quiet,
        verbose: flags.verbose,
        inputs_are_commands: inputs_first || files_first,
        ncores: ncores,
        comm: Seq::empty(),
        lists: Seq::empty(),
        current: Seq::empty(),
    }
}

/// The option fields of `Args` agree with a parse state.
pub open spec fn args_mirror(a: Args, st: PState) -> bool {
    &&& a.flags.grouped == st.grouped
    &&& a.flags.uses_shell == st.uses_shell
    &&& a.flags.quiet == st.quiet
    &&& a.flags.verbose == st.verbose
    &&& a.flags.inputs_are_commands == st.inputs_are_commands
    &&& a.ncores == st.ncores
}

/// Relies on num_cpus::get: the number of logical cores available to the
/// process; its documentation promises at least 1.
#[verifier::external_body]
fn cpu_count() -> (r: usize)
    ensures
        r >= 1,
{
    num_cpus::get()
}

/// A collection of critical options and arguments that were collected at
/// startup of the application.
pub struct Args {
    pub flags: Flags,
    pub ncores: usize,
    pub arguments: Vec<Token>,
    pub ninputs: usize,
    pub inputs: Vec<String>,
}

impl Args {
    /// Defaults: as many workers as there are cores, no inputs yet.
    pub fn new() -> (a: Args)
        ensures
            a.ncores >= 1,
            a.flags.grouped && a.flags.uses_shell && !a.flags.quiet && !a.flags.verbose
                && !a.flags.inputs_are_commands,
            a.arguments@ == Seq::<Token>::empty(),
            a.ninputs == 0,
            a.inputs@ == Seq::<String>::empty(),
    {
        Args {
            ncores: cpu_count(),
            flags: Flags::new(),
            arguments: Vec::new(),
            ninputs: 0,
            inputs: Vec::new(),
        }
    }

    /// Parse the raw program arguments (everything after the program name):
    /// options first, then the command string, then `:::` / `::::` input
    /// lists. Lands exactly where the `run_args` fold lands: either the
    /// collected input lists, a request to print and exit, or the first
    /// error, with the option fields holding whatever was parsed up to it.
    /// The input and count fields are not touched; they are installed by
    /// `set_inputs` once the lists are resolved and assembled.
    pub fn parse(&mut self, raw_args: Vec<String>) -> (r: Result<ParseOutcome, ParseErr>)
        ensures
            final(self).inputs == old(self).inputs,
            final(self).ninputs == old(self).ninputs,
            raw_args.deep_view().len() == 0 ==> {
                &&& r matches Err(e) && e@ == ErrSpec::NoArguments
                &&& final(self).flags == old(self).flags
                &&& final(self).ncores == old(self).ncores
                &&& final(self).arguments == old(self).arguments
            },
            raw_args.deep_view().len() > 0 ==> ({
                let args = raw_args.deep_view();
                let end = run_args(
                    init_state(old(self).flags, old(self).ncores, args[0]),
                    args,
                    0,
                );
                match end {
                    PEnd::Finished(st) => {
                        if st.mode is AwaitJobs {
                            &&& r matches Err(e) && e@ == ErrSpec::JobsNoValue
                            &&& args_mirror(*final(self), st)
                            &&& final(self).arguments == old(self).arguments
                        } else {
                            &&& r matches Ok(o) && o matches ParseOutcome::Run(ls)
                                && ls.deep_view() == push_current(st)
                            &&& args_mirror(*final(self), st)
                            &&& final(self).arguments.deep_view() == tokenize_spec(st.comm)
                        }
                    },
                    PEnd::Halted(h, st) => {
                        &&& args_mirror(*final(self), st)
                        &&& final(self).arguments == old(self).arguments
                        &&& match h {
                            PHalt::Fail(e2) => r matches Err(e) && e@ == e2,
                            PHalt::Help => r matches Ok(o) && o is Help,
                            PHalt::Version => r matches Ok(o) && o is Version,
                            PHalt::NumCores => r matches Ok(o) && o is NumCores,
                        }
                    },
                }
            }),
    {
        let ghost args = raw_args.deep_view();
        if raw_args.len() == 0 {
            return Err(ParseErr::NoArguments);
        }
        let mut mode = if str_eq(raw_args[0].as_str(), ":::") {
            Mode::Inputs
        } else if str_eq(raw_args[0].as_str(), "::::") {
            Mode::Files
        } else {
            Mode::Arguments
        };
        self.flags.inputs_are_commands = match mode {
            Mode::Arguments => false,
            _ => true,
        };
        let mut comm = String::new();
        let mut lists: Vec<Vec<InputItem>> = Vec::new();
        let mut current: Vec<InputItem> = Vec::new();
        let ghost st0 = init_state(old(self).flags, old(self).ncores, args[0]);
        let ghost mut st = st0;
        proof {
            assert(lists.deep_view() =~= st0.lists);
            assert(current.deep_view() =~= st0.current);
        }
        let mut idx: usize = 0;
        while idx < raw_args.len()
            invariant
                0 <= idx <= raw_args@.len(),
                args == raw_args.deep_view(),
                args.len() == raw_args@.len(),
                args.len() > 0,
                st0 == init_state(old(self).flags, old(self).ncores, args[0]),
                run_args(st0, args, 0) == run_args(st, args, idx as int),
                mode@ == st.mode,
                self.flags.grouped == st.grouped,
                self.flags.uses_shell == st.uses_shell,
                self.flags.quiet == st.quiet,
                self.flags.verbose == st.verbose,
                self.flags.inputs_are_commands == st.inputs_are_commands,
                self.ncores == st.ncores,
                comm@ == st.comm,
                lists.deep_view() == st.lists,
                current.deep_view() == st.current,
                self.arguments == old(self).arguments,
                self.inputs == old(self).inputs,
                self.ninputs == old(self).ninputs,
            decreases raw_args@.len() - idx,
        {
            let a = raw_args[idx].as_str();
            let ghost stp = st;
            proof {
                assert(args[idx as int] == a@);
            }
            match mode {
                Mode::Arguments => {
                    let alen = a.unicode_len();
                    if alen == 0 {
                        return Err(ParseErr::InvalidArgument(raw_args[idx].clone()));
                    }
                    if a.get_char(0) == '-' {
                        if alen == 1 {
                            return Err(ParseErr::InvalidArgument(raw_args[idx].clone()));
                        }
                        let c1 = a.get_char(1);
                        if c1 == 'j' {
                            if alen > 2 {
                                let tail = a.substring_char(2, alen);
                                proof {
                                    assert(tail@ =~= a@.skip(2));
                                }
                                match parse_jobs(tail) {
                                    Ok(n) => {
                                        self.ncores = n;
                                        proof {
                                            let stn = PState { ncores: n, ..st };
                                            assert(step(st, args[idx as int]) == PStep::Cont(stn));
                                            st = stn;
                                        }
                                    },
                                    Err(e) => {
                                        return Err(e);
                                    },
                                }
                            } else {
                                proof {
                                    let stn = PState { mode: PMode::AwaitJobs, ..st };
                                    assert(step(st, args[idx as int]) == PStep::Cont(stn));
                                    st = stn;
                                }
                                mode = Mode::AwaitJobs;
                            }
                        } else if c1 != '-' {
                            let ghost st_in = st;
                            let mut i: usize = 1;
                            while i < alen
                                invariant
                                    1 <= i <= alen,
                                    alen == a@.len(),
                                    args == raw_args.deep_view(),
                                    args.len() == raw_args@.len(),
                                    args.len() > 0,
                                    0 <= idx < args.len(),
                                    a@ == args[idx as int],
                                    st0 == init_state(old(self).flags, old(self).ncores, args[0]),
                                    run_args(st0, args, 0) == run_args(st_in, args, idx as int),
                                    step(st_in, args[idx as int]) == short_flags(st_in, a@, 1),
                                    comm@ == st.comm,
                                    lists.deep_view() == st.lists,
                                    current.deep_view() == st.current,
                                    mode@ == st.mode,
                                    st.mode is Arguments,
                                    self.flags.grouped == st.grouped,
                                    self.flags.uses_shell == st.uses_shell,
                                    self.flags.quiet == st.quiet,
                                    self.flags.verbose == st.verbose,
                                    self.flags.inputs_are_commands == st.inputs_are_commands,
                                    self.ncores == st.ncores,
                                    self.arguments == old(self).arguments,
                                    self.inputs == old(self).inputs,
                                    self.ninputs == old(self).ninputs,
                                    short_flags(st_in, a@, 1) == short_flags(st, a@, i as int),
                                decreases alen - i,
                            {
                                let c = a.get_char(i);
                                if c == 'h' {
                                    proof {
                                        assert(short_flags(st, a@, i as int) == PStep::Halt(
                                            PHalt::Help,
                                            st,
                                        ));
                                        assert(run_args(st0, args, 0) == PEnd::Halted(
                                            PHalt::Help,
                                            st,
                                        ));
                                    }
                                    return Ok(ParseOutcome::Help);
                                } else if c == 'n' {
                                    self.flags.uses_shell = false;
                                    proof {
                                        st = PState { uses_shell: false, ..st };
                                    }
                                } else if c == 'u' {
                                    self.flags.grouped = false;
                                    proof {
                                        st = PState { grouped: false, ..st };
                                    }
                                } else if c == 'q' {
                                    self.flags.quiet = true;
                                    proof {
                                        st = PState { quiet: true, ..st };
                                    }
                                } else if c == 'v' {
                                    self.flags.verbose = true;
                                    proof {
                                        st = PState { verbose: true, ..st };
                                    }
                                } else {
                                    proof {
                                        assert(short_flags(st, a@, i as int) == PStep::Halt(
                                            PHalt::Fail(ErrSpec::InvalidArgument(a@)),
                                            st,
                                        ));
                                        assert(run_args(st0, args, 0) == PEnd::Halted(
                                            PHalt::Fail(ErrSpec::InvalidArgument(a@)),
                                            st,
                                        ));
                                    }
                                    return Err(ParseErr::InvalidArgument(raw_args[idx].clone()));
                                }
                                i = i + 1;
                            }
                            proof {
                                assert(short_flags(st, a@, i as int) == PStep::Cont(st));
                                assert(step(st_in, args[idx as int]) == PStep::Cont(st));
                            }
                        } else {
                            let o = a.substring_char(2, alen);
                            proof {
                                assert(o@ =~= a@.skip(2));
                            }
                            if str_eq(o, "help") {
                                return Ok(ParseOutcome::Help);
                            } else if str_eq(o, "jobs") {
                                proof {
                                    st = PState { mode: PMode::AwaitJobs, ..st };
                                }
                                mode = Mode::AwaitJobs;
                            } else if str_eq(o, "ungroup") {
                                self.flags.grouped = false;
                                proof {
                                    st = PState { grouped: false, ..st };
                                }
                            } else if str_eq(o, "no-shell") {
                                self.flags.uses_shell = false;
                                proof {
                                    st = PState { uses_shell: false, ..st };
                                }
                            } else if str_eq(o, "num-cpu-cores") {
                                return Ok(ParseOutcome::NumCores);
                            } else if str_eq(o, "quiet") {
                                self.flags.quiet = true;
                                proof {
                                    st = PState { quiet: true, ..st };
                                }
                            } else if str_eq(o, "verbose") {
                                self.flags.verbose = true;
                                proof {
                                    st = PState { verbose: true, ..st };
                                }
                            } else if str_eq(o, "version") {
                                return Ok(ParseOutcome::Version);
                            } else {
                                return Err(ParseErr::InvalidArgument(raw_args[idx].clone()));
                            }
                        }
                    } else if str_eq(a, ":::") {
                        self.flags.inputs_are_commands = true;
                        proof {
                            st =
                            PState { mode: PMode::Inputs, inputs_are_commands: true, ..st };
                        }
                        mode = Mode::Inputs;
                    } else if str_eq(a, "::::") {
                        self.flags.inputs_are_commands = true;
                        proof {
                            st =
                            PState { mode: PMode::Files, inputs_are_commands: true, ..st };
                        }
                        mode = Mode::Files;
                    } else {
                        comm.append(a);
                        proof {
                            st = PState { mode: PMode::Command, comm: st.comm + a@, ..st };
                        }
                        mode = Mode::Command;
                    }
                    proof {
                        assert(step(stp, args[idx as int]) == PStep::Cont(st));
                    }
                },
                Mode::Command => {
                    if str_eq(a, ":::") || str_eq(a, ":::+") {
                        proof {
                            st = PState { mode: PMode::Inputs, ..st };
                        }
                        mode = Mode::Inputs;
                    } else if str_eq(a, "::::") || str_eq(a, "::::+") {
                        proof {
                            st = PState { mode: PMode::Files, ..st };
                        }
                        mode = Mode::Files;
                    } else {
                        comm.append(" ");
                        comm.append(a);
                        proof {
                            st = PState { comm: st.comm + " "@ + a@, ..st };
                        }
                    }
                    proof {
                        assert(step(stp, args[idx as int]) == PStep::Cont(st));
                    }
                },
                Mode::Inputs | Mode::Files => {
                    let files_now = match mode {
                        Mode::Files => true,
                        _ => false,
                    };
                    proof {
                        assert(stp.mode is Inputs || stp.mode is Files);
                        assert(files_now == stp.mode is Files);
                    }
                    if str_eq(a, ":::") || str_eq(a, "::::") {
                        let ghost sealed = push_current(st);
                        if current.len() > 0 {
                            lists.push(current);
                            current = Vec::new();
                            proof {
                                assert(lists.deep_view() =~= sealed);
                                assert(current.deep_view() =~= Seq::<ItemSpec>::empty());
                            }
                        } else {
                            proof {
                                assert(current.deep_view().len() == 0);
                                assert(lists.deep_view() == sealed);
                                assert(current.deep_view() =~= Seq::<ItemSpec>::empty());
                            }
                        }
                        if str_eq(a, ":::") {
                            proof {
                                st =
                                PState {
                                    mode: PMode::Inputs,
                                    lists: sealed,
                                    current: Seq::empty(),
                                    ..st
                                };
                                assert(step(stp, args[idx as int]) == PStep::Cont(st));
                            }
                            mode = Mode::Inputs;
                        } else {
                            proof {
                                reveal_strlit("::::");
                                reveal_strlit(":::+");
                                assert(a@ == "::::"@);
                                assert(a@ != ":::+"@);
                                st =
                                PState {
                                    mode: PMode::Files,
                                    lists: sealed,
                                    current: Seq::empty(),
                                    ..st
                                };
                                assert(step(stp, args[idx as int]) == PStep::Cont(st));
                            }
                            mode = Mode::Files;
                        }
                    } else if str_eq(a, ":::+") {
                        proof {
                            st = PState { mode: PMode::Inputs, ..st };
                            assert(step(stp, args[idx as int]) == PStep::Cont(st));
                        }
                        mode = Mode::Inputs;
                    } else if str_eq(a, "::::+") {
                        proof {
                            st = PState { mode: PMode::Files, ..st };
                            assert(step(stp, args[idx as int]) == PStep::Cont(st));
                        }
                        mode = Mode::Files;
                    } else {
                        if files_now {
                            current.push(InputItem::File(raw_args[idx].clone()));
                            proof {
                                st =
                                PState { current: st.current.push(ItemSpec::File(a@)), ..st };
                                assert(current.deep_view() =~= st.current);
                                assert(step(stp, args[idx as int]) == PStep::Cont(st));
                            }
                        } else {
                            current.push(InputItem::Value(raw_args[idx].clone()));
                            proof {
                                st =
                                PState { current: st.current.push(ItemSpec::Value(a@)), ..st };
                                assert(current.deep_view() =~= st.current);
                                assert(step(stp, args[idx as int]) == PStep::Cont(st));
                            }
                        }
                    }
                    proof {
                        assert(step(stp, args[idx as int]) == PStep::Cont(st));
                    }
                },
                Mode::AwaitJobs => {
                    match parse_jobs(a) {
                        Ok(n) => {
                            self.ncores = n;
                            proof {
                                st =
                                PState { ncores: n, mode: PMode::Arguments, ..st };
                            }
                            mode = Mode::Arguments;
                        },
                        Err(e) => {
                            return Err(e);
                        },
                    }
                },
            }
            proof {
                assert(step(stp, args[idx as int]) == PStep::Cont(st));
                assert(run_args(stp, args, idx as int) == run_args(st, args, idx + 1));
            }
            idx = idx + 1;
        }
        proof {
            assert(run_args(st, args, idx as int) == PEnd::Finished(st));
        }
        match mode {
            Mode::AwaitJobs => Err(ParseErr::JobsNoValue),
            _ => {
                self.arguments = tokenize(comm.as_str());
                let ghost sealed = push_current(st);
                if current.len() > 0 {
                    lists.push(current);
                    proof {
                        assert(lists.deep_view() =~= sealed);
                    }
                }
                Ok(ParseOutcome::Run(lists))
            },
        }
    }

    /// Install the final, fully resolved input list; every job id downstream
    /// indexes into it.
    pub fn set_inputs(&mut self, inputs: Vec<String>)
        ensures
            final(self).inputs == inputs,
            final(self).ninputs == inputs@.len(),
            final(self).flags == old(self).flags,
            final(self).ncores == old(self).ncores,
            final(self).arguments == old(self).arguments,
    {
        self.ninputs = inputs.len();
        self.inputs = inputs;
    }
}

} // verus!
