//! Reading the command line: the command, its target and its flags, and the
//! context that an encryption or a decryption runs with.

use vstd::prelude::*;
use vstd::slice::slice_subrange;
use crate::crypto::KEY_LENGTH;
use crate::descriptions::{cmd_help, help_text, TOOL_DESCRIPTION};
use crate::error::{CliError, CliErrorView};
use crate::flags::{
    bool_flag_names, is_str_flag, is_valid_bool_flag, is_valid_str_flag, lemma_check_flags,
    str_flag_table, Flags, FlagsModel, CMD,
};
use crate::text::str_eq;

verus! {

/// The views of a list of strings.
pub open spec fn strings_view(args: Seq<String>) -> Seq<Seq<char>> {
    args.map_values(|s: String| s@)
}

/// Where reading flags from a command line ends.
pub enum FlagScanView {
    /// Every argument was read; these are the flags.
    Done(FlagsModel),
    /// Setting a flag failed; these are the flags at that point.
    Failed(CliErrorView, FlagsModel),
    /// A flag that takes a value is the last argument, so reading its value
    /// runs past the end; these are the flags at that point.
    Dangling(FlagsModel),
}

/// Reading the flags in `args` from position `pos` on into `m`: a boolean
/// flag of `cmd` is set to true, a flag with a value of `cmd` takes the next
/// argument as its value, and any other argument is passed over.
pub open spec fn scan_flags(m: FlagsModel, args: Seq<Seq<char>>, cmd: CMD, pos: int) -> FlagScanView
    decreases args.len() - pos,
{
    if pos < 0 || pos >= args.len() {
        FlagScanView::Done(m)
    } else {
        let f = args[pos];
        if bool_flag_names(cmd).contains(f) {
            match m.set_bool(f, true) {
                (Err(e), m2) => FlagScanView::Failed(e, m2),
                (Ok(()), m2) => scan_flags(m2, args, cmd, pos + 1),
            }
        } else if is_str_flag(cmd, f) {
            if pos + 1 >= args.len() {
                FlagScanView::Dangling(m)
            } else {
                match m.set_str(f, args[pos + 1]) {
                    (Err(e), m2) => FlagScanView::Failed(e, m2),
                    (Ok(()), m2) => scan_flags(m2, args, cmd, pos + 2),
                }
            }
        } else {
            scan_flags(m, args, cmd, pos + 1)
        }
    }
}

/// The flags at the point where reading ended.
pub open spec fn scan_model(r: FlagScanView) -> FlagsModel {
    match r {
        FlagScanView::Done(m) => m,
        FlagScanView::Failed(_, m) => m,
        FlagScanView::Dangling(m) => m,
    }
}

/// No flag is both a boolean flag of one command and a flag with a value of
/// another.
pub proof fn lemma_flag_kinds_disjoint(k: Seq<char>, c1: CMD, c2: CMD)
    ensures
        bool_flag_names(c1).contains(k) ==> !is_str_flag(c2, k),
{
    reveal_strlit("--no-delete");
    reveal_strlit("--name");
    reveal_strlit("--location");
    if bool_flag_names(c1).contains(k) {
        assert(k == "--no-delete"@);
        assert(k.len() == 11);
        assert(str_flag_table(c2).len() <= 2);
        assert forall|i: int| 0 <= i < str_flag_table(c2).len() implies str_flag_table(c2)[i].0
            != k by {
            assert(str_flag_table(c2)[i].0 == "--name"@ || str_flag_table(c2)[i].0
                == "--location"@);
        }
    }
}

/// Reading flags never changes the command that the flags belong to.
pub proof fn lemma_scan_keeps_cmd(m: FlagsModel, args: Seq<Seq<char>>, cmd: CMD, pos: int)
    ensures
        scan_model(scan_flags(m, args, cmd, pos)).cmd == m.cmd,
    decreases args.len() - pos,
{
    if 0 <= pos < args.len() {
        let f = args[pos];
        if bool_flag_names(cmd).contains(f) {
            lemma_scan_keeps_cmd(m.set_bool(f, true).1, args, cmd, pos + 1);
        } else if is_str_flag(cmd, f) && pos + 1 < args.len() {
            lemma_scan_keeps_cmd(m.set_str(f, args[pos + 1]).1, args, cmd, pos + 2);
        } else if !is_str_flag(cmd, f) {
            lemma_scan_keeps_cmd(m, args, cmd, pos + 1);
        }
    }
}

/// Reading from a position in `z + y` past `z` reads `y`.
pub proof fn lemma_scan_shift(m: FlagsModel, z: Seq<Seq<char>>, y: Seq<Seq<char>>, cmd: CMD, p: int)
    requires
        0 <= p,
    ensures
        scan_flags(m, z + y, cmd, z.len() + p) == scan_flags(m, y, cmd, p),
    decreases y.len() - p,
{
    let a = z + y;
    let q = z.len() + p;
    if p < y.len() {
        assert(a[q] == y[p]);
        if p + 1 < y.len() {
            assert(a[q + 1] == y[p + 1]);
        }
        let f = y[p];
        if bool_flag_names(cmd).contains(f) {
            lemma_scan_shift(m.set_bool(f, true).1, z, y, cmd, p + 1);
        } else if is_str_flag(cmd, f) {
            if p + 1 < y.len() {
                lemma_scan_shift(m.set_str(f, y[p + 1]).1, z, y, cmd, p + 2);
            }
        } else {
            lemma_scan_shift(m, z, y, cmd, p + 1);
        }
    }
}

/// Reading `x + y` reads `x` and then goes on with `y` from the flags that
/// reading `x` gave, when reading `x` alone reaches its end.
pub proof fn lemma_scan_append(m: FlagsModel, x: Seq<Seq<char>>, y: Seq<Seq<char>>, cmd: CMD, p: int)
    requires
        0 <= p <= x.len(),
        scan_flags(m, x, cmd, p) is Done,
    ensures
        scan_flags(m, x + y, cmd, p) == scan_flags(scan_model(scan_flags(m, x, cmd, p)), y, cmd, 0),
    decreases x.len() - p,
{
    let a = x + y;
    if p == x.len() {
        lemma_scan_shift(m, x, y, cmd, 0);
    } else {
        assert(a[p] == x[p]);
        let f = x[p];
        if bool_flag_names(cmd).contains(f) {
            lemma_scan_append(m.set_bool(f, true).1, x, y, cmd, p + 1);
        } else if is_str_flag(cmd, f) {
            assert(a[p + 1] == x[p + 1]);
            lemma_scan_append(m.set_str(f, x[p + 1]).1, x, y, cmd, p + 2);
        } else {
            lemma_scan_append(m, x, y, cmd, p + 1);
        }
    }
}

/// A flag with a value that is set stays set to that value while reading
/// goes on to its end: setting it again is a duplicate.
pub proof fn lemma_scan_keeps_value(
    m: FlagsModel,
    args: Seq<Seq<char>>,
    cmd: CMD,
    pos: int,
    k: Seq<char>,
)
    requires
        m.strs.contains_key(k),
    ensures
        scan_flags(m, args, cmd, pos) matches FlagScanView::Done(m2) ==> m2.strs.contains_key(k)
            && m2.strs[k] == m.strs[k],
    decreases args.len() - pos,
{
    if 0 <= pos < args.len() {
        let f = args[pos];
        if bool_flag_names(cmd).contains(f) {
            lemma_scan_keeps_value(m.set_bool(f, true).1, args, cmd, pos + 1, k);
        } else if is_str_flag(cmd, f) && pos + 1 < args.len() {
            lemma_scan_keeps_value(m.set_str(f, args[pos + 1]).1, args, cmd, pos + 2, k);
        } else if !is_str_flag(cmd, f) {
            lemma_scan_keeps_value(m, args, cmd, pos + 1, k);
        }
    }
}

/// Every flag with a value that stands where a flag is read, followed by a
/// value, gets that value: when the arguments before it read to their end,
/// and reading all the arguments succeeds, the flag is set to the argument
/// after it, whatever flags come before or after.
pub proof fn lemma_scan_sets_flag_value(
    m: FlagsModel,
    x: Seq<Seq<char>>,
    k: Seq<char>,
    v: Seq<char>,
    y: Seq<Seq<char>>,
    cmd: CMD,
)
    requires
        is_str_flag(cmd, k),
        is_str_flag(m.cmd, k),
        scan_flags(m, x, cmd, 0) is Done,
    ensures
        scan_flags(m, x + seq![k, v] + y, cmd, 0) matches FlagScanView::Done(m2) ==> m2.strs.contains_key(
            k,
        ) && m2.strs[k] == v,
{
    let m1 = scan_model(scan_flags(m, x, cmd, 0));
    let rest = seq![k, v] + y;
    assert(x + seq![k, v] + y =~= x + rest);
    lemma_scan_append(m, x, rest, cmd, 0);
    lemma_scan_keeps_cmd(m, x, cmd, 0);
    lemma_flag_kinds_disjoint(k, cmd, cmd);
    assert(rest[0] == k && rest[1] == v);
    let m2 = m1.set_str(k, v).1;
    if m1.set_str(k, v).0 is Ok {
        lemma_scan_keeps_value(m2, rest, cmd, 2, k);
    }
}

/// Where reading flags ended./// Where reading flags ended.
#[derive(Debug)]
pub enum FlagScan {
    /// Every argument was read.
    Complete,
    /// Setting a flag failed.
    Failed(CliError),
    /// A flag that takes a value is the last argument.
    MissingValue,
}

/// Reads the flags in `args` into `flags`, checking each argument against
/// the flags of `cmd`; stops at the first flag that cannot be set.
pub fn scan_cmd_flags<'f>(flags: &mut Flags<'f>, args: &'f [String], cmd: CMD) -> (r: FlagScan)
    requires
        old(flags).wf(),
    ensures
        final(flags).wf(),
        match scan_flags(old(flags)@, strings_view(args@), cmd, 0) {
            FlagScanView::Done(m) => r is Complete && final(flags)@ == m,
            FlagScanView::Failed(e, m) => r matches FlagScan::Failed(x) && x@ == e && final(flags)@
                == m,
            FlagScanView::Dangling(m) => r is MissingValue && final(flags)@ == m,
        },
{
    let ghost av = strings_view(args@);
    let mut pos: usize = 0;
    while pos < args.len()
        invariant
            flags.wf(),
            pos <= args@.len(),
            av == strings_view(args@),
            scan_flags(flags@, av, cmd, pos as int) == scan_flags(old(flags)@, av, cmd, 0),
        decreases args@.len() - pos,
    {
        let flag: &'f str = args[pos].as_str();
        assert(flag@ == av[pos as int]);
        if is_valid_bool_flag(flag, cmd) {
            match flags.set_bool_flag(flag, true) {
                Err(e) => {
                    return FlagScan::Failed(e);
                },
                Ok(()) => {},
            }
        } else if is_valid_str_flag(flag, cmd) {
            pos = pos + 1;
            if pos >= args.len() {
                return FlagScan::MissingValue;
            }
            let val = args[pos].clone();
            assert(val@ == av[pos as int]);
            match flags.set_str_flag(flag, val) {
                Err(e) => {
                    return FlagScan::Failed(e);
                },
                Ok(()) => {},
            }
        }
        pos = pos + 1;
    }
    FlagScan::Complete
}

/// What the context builder of an encryption or a decryption holds before
/// it is built.
#[derive(Debug)]
pub struct CtxBuilder<'f> {
    pub target: Option<String>,
    pub key: Option<[u8; KEY_LENGTH]>,
    pub flags: Flags<'f>,
}

/// The context of an encryption or a decryption.
#[derive(Debug)]
pub struct Ctx<'f> {
    pub target: String,
    pub location: String,
    pub key: [u8; KEY_LENGTH],
    pub name: Option<String>,
    pub flags: Flags<'f>,
}

/// The view of an optional string.
pub open spec fn opt_string_view(o: Option<String>) -> Option<Seq<char>> {
    match o {
        Some(s) => Some(s@),
        None => None,
    }
}

/// The value of `k` in a map of flags, if it is set.
pub open spec fn lookup(strs: Map<Seq<char>, Seq<char>>, k: Seq<char>) -> Option<Seq<char>> {
    if strs.contains_key(k) {
        Some(strs[k])
    } else {
        None
    }
}

/// Reads the flags in `args` into the builder's flags, checking each
/// argument against the flags of `cmd`; stops with the error of the first
/// flag that cannot be set. A flag with a value that stands last, with no
/// value after it, is left out.
pub fn parse_cmd_flags<'f>(builder: &mut CtxBuilder<'f>, args: &'f [String], cmd: CMD) -> (r:
    Result<(), CliError>)
    requires
        old(builder).flags.wf(),
        !(scan_flags(old(builder).flags@, strings_view(args@), cmd, 0) is Dangling),
    ensures
        final(builder).flags.wf(),
        final(builder).target == old(builder).target,
        final(builder).key == old(builder).key,
        match scan_flags(old(builder).flags@, strings_view(args@), cmd, 0) {
            FlagScanView::Done(m) => r is Ok && final(builder).flags@ == m,
            FlagScanView::Failed(e, m) => r matches Err(x) && x@ == e && final(builder).flags@ == m,
            FlagScanView::Dangling(_) => false,
        },
{
    if let FlagScan::Failed(e) = scan_cmd_flags(&mut builder.flags, args, cmd) {
        Err(e)
    } else {
        Ok(())
    }
}

impl<'f> CtxBuilder<'f> {
    /// A builder for `cmd` with no target, no key, and the initial flags of `cmd`.
    pub fn new(cmd: CMD) -> (r: Self)
        ensures
            r.target is None,
            r.key is None,
            r.flags.wf(),
            r.flags@ == FlagsModel::initial(cmd),
    {
        CtxBuilder { target: None, key: None, flags: Flags::new(cmd) }
    }

    /// Builds the context: the target and the key must be set, and the
    /// flags must pass their check; the context takes the checked flags, the
    /// name flag if it is set, and the location flag, which the check
    /// guarantees for both encryption and decryption.
    pub fn build(self) -> (r: Result<Ctx<'f>, CliError>)
        requires
            self.flags.wf(),
            self.target is Some && self.key is Some ==> self.flags@.cmd != CMD::HELP,
        ensures
            self.target is None ==> (r matches Err(e) && e@ == CliErrorView::MissingTarget),
            self.target is Some && self.key is None ==> (r matches Err(e) && e@
                == CliErrorView::MissingKey),
            self.target is Some && self.key is Some ==> match self.flags@.check() {
                (Err(e), _) => r matches Err(x) && x@ == e,
                (Ok(()), m) => r matches Ok(ctx) && ctx.target@ == self.target->0@ && ctx.key
                    == self.key->0 && ctx.flags.wf() && ctx.flags@ == m && Some(ctx.location@)
                    == lookup(m.strs, "--location"@) && opt_string_view(ctx.name) == lookup(
                    m.strs,
                    "--name"@,
                ),
            },
    {
        let mut flags = self.flags;
        let target = match self.target {
            Some(t) => t,
            None => {
                return Err(CliError::MissingTarget);
            },
        };
        let key = match self.key {
            Some(k) => k,
            None => {
                return Err(CliError::MissingKey);
            },
        };
        proof {
            lemma_check_flags(flags@);
        }
        match flags.check_flags() {
            Err(e) => {
                return Err(e);
            },
            Ok(()) => {},
        }
        let name = match flags.get_str_flag("--name") {
            Some(n) => Some(n.clone()),
            None => None,
        };
        proof {
            let table = str_flag_table(flags@.cmd);
            if flags@.cmd == CMD::ENCRYPT {
                assert(table[1].0 == "--location"@);
            } else {
                assert(table[0].0 == "--location"@);
            }
        }
        let location = flags.get_str_flag("--location").unwrap().clone();
        Ok(Ctx { target, location, key, name, flags })
    }
}


/// What a command line asks for.
#[derive(Debug)]
pub enum Invocation<'a> {
    /// Encrypt, with this builder.
    Encrypt(CtxBuilder<'a>),
    /// Decrypt, with this builder.
    Decrypt(CtxBuilder<'a>),
    /// Print this help text.
    Help(&'static str),
}

/// What a command line asks for, as values.
pub enum InvocationView {
    /// Encrypt this target with these flags.
    Encrypt(Seq<char>, FlagsModel),
    /// Decrypt this target with these flags.
    Decrypt(Seq<char>, FlagsModel),
    /// Print this text.
    Help(Seq<char>),
    /// The command line is refused.
    Failed(CliErrorView),
    /// Reading the command line runs past its end.
    Aborted,
}

/// Reading the flags of a command whose flags live in a builder for
/// `builder_cmd`, checking the arguments against the flags of `cmd`.
pub open spec fn command_flags(
    args: Seq<Seq<char>>,
    from: int,
    builder_cmd: CMD,
    cmd: CMD,
) -> FlagScanView {
    scan_flags(FlagsModel::initial(builder_cmd), args.subrange(from, args.len() as int), cmd, 0)
}

/// What a command line asks for. `encrypt` (or `e`) takes a target and reads
/// its flags after it; `decrypt` (or `d`) takes a target and reads its flags
/// from the target on, checking them against the flags of `encrypt`; `help`
/// prints the text of the command after it, or the description of the tool.
pub open spec fn invocation_spec(args: Seq<Seq<char>>) -> InvocationView {
    if args.len() == 0 {
        InvocationView::Failed(CliErrorView::NoCommand)
    } else if args[0] == "encrypt"@ || args[0] == "e"@ {
        if args.len() < 2 {
            InvocationView::Failed(CliErrorView::ExpectedTarget)
        } else {
            match command_flags(args, 2, CMD::ENCRYPT, CMD::ENCRYPT) {
                FlagScanView::Done(m) => InvocationView::Encrypt(args[1], m),
                FlagScanView::Failed(e, _) => InvocationView::Failed(e),
                FlagScanView::Dangling(_) => InvocationView::Aborted,
            }
        }
    } else if args[0] == "decrypt"@ || args[0] == "d"@ {
        if args.len() < 2 {
            InvocationView::Failed(CliErrorView::ExpectedTarget)
        } else {
            match command_flags(args, 1, CMD::DECRYPT, CMD::ENCRYPT) {
                FlagScanView::Done(m) => InvocationView::Decrypt(args[1], m),
                FlagScanView::Failed(e, _) => InvocationView::Failed(e),
                FlagScanView::Dangling(_) => InvocationView::Aborted,
            }
        }
    } else if args[0] == "help"@ {
        if args.len() < 2 {
            InvocationView::Help(TOOL_DESCRIPTION@)
        } else {
            match help_text(args[1]) {
                Some(t) => InvocationView::Help(t),
                None => InvocationView::Failed(CliErrorView::UnknownHelpTopic(args[1])),
            }
        }
    } else {
        InvocationView::Failed(CliErrorView::UnknownCommand(args[0]))
    }
}

/// `b` is a fresh builder for `target` with the flags `m`.
pub open spec fn builder_matches(b: CtxBuilder, target: Seq<char>, m: FlagsModel) -> bool {
    &&& b.target matches Some(t) && t@ == target
    &&& b.key is None
    &&& b.flags.wf()
    &&& b.flags@ == m
}

/// `r` is what the tool makes of the command line `v`.
pub open spec fn invocation_matches(r: Result<Invocation, CliError>, v: InvocationView) -> bool {
    match v {
        InvocationView::Encrypt(t, m) => r matches Ok(Invocation::Encrypt(b)) && builder_matches(
            b,
            t,
            m,
        ),
        InvocationView::Decrypt(t, m) => r matches Ok(Invocation::Decrypt(b)) && builder_matches(
            b,
            t,
            m,
        ),
        InvocationView::Help(t) => r matches Ok(Invocation::Help(s)) && s@ == t,
        InvocationView::Failed(e) => r matches Err(x) && x@ == e,
        InvocationView::Aborted => false,
    }
}

/// A builder for `builder_cmd` with the target `args[1]` and the flags read
/// from `args[from..]`; `None` where reading runs past the end.
fn command_builder<'a>(args: &'a [String], from: usize, builder_cmd: CMD, cmd: CMD) -> (r: Option<
    Result<CtxBuilder<'a>, CliError>,
>)
    requires
        2 <= args@.len(),
        from <= args@.len(),
    ensures
        match command_flags(strings_view(args@), from as int, builder_cmd, cmd) {
            FlagScanView::Done(m) => r matches Some(Ok(b)) && builder_matches(
                b,
                strings_view(args@)[1],
                m,
            ),
            FlagScanView::Failed(e, _) => r matches Some(Err(x)) && x@ == e,
            FlagScanView::Dangling(_) => r is None,
        },
{
    let mut builder = CtxBuilder::new(builder_cmd);
    builder.target = Some(args[1].clone());
    let rest = slice_subrange(args, from, args.len());
    assert(strings_view(rest@) =~= strings_view(args@).subrange(from as int, args@.len() as int));
    match scan_cmd_flags(&mut builder.flags, rest, cmd) {
        FlagScan::Complete => Some(Ok(builder)),
        FlagScan::Failed(e) => Some(Err(e)),
        FlagScan::MissingValue => None,
    }
}

/// What the command line `args` asks for, or `None` where reading it runs
/// past its end (a flag that takes a value stands last).
pub fn try_parse_invocation<'a>(args: &'a [String]) -> (r: Option<Result<Invocation<'a>, CliError>>)
    ensures
        match r {
            None => invocation_spec(strings_view(args@)) is Aborted,
            Some(x) => invocation_matches(x, invocation_spec(strings_view(args@))),
        },
{
    let ghost av = strings_view(args@);
    if args.len() == 0 {
        return Some(Err(CliError::NoCommand));
    }
    let cmd = args[0].as_str();
    assert(cmd@ == av[0]);
    if str_eq(cmd, "encrypt") || str_eq(cmd, "e") {
        if args.len() < 2 {
            return Some(Err(CliError::ExpectedTarget));
        }
        match command_builder(args, 2, CMD::ENCRYPT, CMD::ENCRYPT) {
            None => None,
            Some(Err(e)) => Some(Err(e)),
            Some(Ok(b)) => Some(Ok(Invocation::Encrypt(b))),
        }
    } else if str_eq(cmd, "decrypt") || str_eq(cmd, "d") {
        if args.len() < 2 {
            return Some(Err(CliError::ExpectedTarget));
        }
        match command_builder(args, 1, CMD::DECRYPT, CMD::ENCRYPT) {
            None => None,
            Some(Err(e)) => Some(Err(e)),
            Some(Ok(b)) => Some(Ok(Invocation::Decrypt(b))),
        }
    } else if str_eq(cmd, "help") {
        if args.len() < 2 {
            return Some(Ok(Invocation::Help(TOOL_DESCRIPTION)));
        }
        let topic = args[1].as_str();
        match cmd_help(topic) {
            Some(text) => Some(Ok(Invocation::Help(text))),
            None => Some(Err(CliError::UnknownHelpTopic { topic: topic.to_owned() })),
        }
    } else {
        Some(Err(CliError::UnknownCommand { command: cmd.to_owned() }))
    }
}

/// What the command line `args` asks for. Command lines on which reading
/// runs past the end (a flag that takes a value stands last) are left out.
pub fn parse_invocation<'a>(args: &'a [String]) -> (r: Result<Invocation<'a>, CliError>)
    requires
        !(invocation_spec(strings_view(args@)) is Aborted),
    ensures
        invocation_matches(r, invocation_spec(strings_view(args@))),
{
    try_parse_invocation(args).unwrap()
}

/// The first word decides the command: `decrypt` and `d` always ask for a
/// decryption of the second word (never an encryption), `encrypt` and `e`
/// for an encryption of it, each with flags of its own command; `help`
/// only prints. With no flags after the target, the flags are the
/// command's initial ones.
pub proof fn lemma_invocation_command(args: Seq<Seq<char>>)
    ensures
        args.len() >= 1 && (args[0] == "decrypt"@ || args[0] == "d"@) ==> {
            &&& !(invocation_spec(args) is Encrypt)
            &&& !(invocation_spec(args) is Help)
            &&& invocation_spec(args) matches InvocationView::Decrypt(t, m) ==> t == args[1] && m.cmd
                == CMD::DECRYPT
        },
        args.len() >= 1 && (args[0] == "encrypt"@ || args[0] == "e"@) ==> {
            &&& !(invocation_spec(args) is Decrypt)
            &&& !(invocation_spec(args) is Help)
            &&& invocation_spec(args) matches InvocationView::Encrypt(t, m) ==> t == args[1] && m.cmd
                == CMD::ENCRYPT
        },
        args.len() >= 1 && args[0] == "help"@ ==> !(invocation_spec(args) is Encrypt)
            && !(invocation_spec(args) is Decrypt),
        args.len() == 2 && (args[0] == "encrypt"@ || args[0] == "e"@) ==> invocation_spec(args)
            == InvocationView::Encrypt(args[1], FlagsModel::initial(CMD::ENCRYPT)),
        args.len() == 2 && (args[0] == "decrypt"@ || args[0] == "d"@) && !bool_flag_names(
            CMD::ENCRYPT,
        ).contains(args[1]) && !is_str_flag(CMD::ENCRYPT, args[1]) ==> invocation_spec(args)
            == InvocationView::Decrypt(args[1], FlagsModel::initial(CMD::DECRYPT)),
{
    reveal_strlit("encrypt");
    reveal_strlit("e");
    reveal_strlit("decrypt");
    reveal_strlit("d");
    reveal_strlit("help");
    assert("encrypt"@ != "decrypt"@ && "encrypt"@ != "d"@ && "encrypt"@ != "help"@ && "e"@ != "d"@
        && "e"@ != "decrypt"@ && "e"@ != "help"@ && "decrypt"@ != "help"@ && "d"@ != "help"@) by {
        assert("encrypt"@[0] != "decrypt"@[0]);
        assert("e"@[0] != "d"@[0]);
    }
    if args.len() >= 2 {
        lemma_scan_keeps_cmd(
            FlagsModel::initial(CMD::ENCRYPT),
            args.subrange(2, args.len() as int),
            CMD::ENCRYPT,
            0,
        );
        lemma_scan_keeps_cmd(
            FlagsModel::initial(CMD::DECRYPT),
            args.subrange(1, args.len() as int),
            CMD::ENCRYPT,
            0,
        );
    }
    if args.len() == 2 {
        let rest = args.subrange(1, 2);
        assert(rest[0] == args[1]);
        let m = FlagsModel::initial(CMD::DECRYPT);
        assert(scan_flags(m, rest, CMD::ENCRYPT, 1) == FlagScanView::Done(m));
        if !bool_flag_names(CMD::ENCRYPT).contains(args[1]) && !is_str_flag(CMD::ENCRYPT, args[1]) {
            assert(scan_flags(m, rest, CMD::ENCRYPT, 0) == FlagScanView::Done(m));
        }
    }
}

/// A command and its alias read the same command line alike: `d` as
/// `decrypt`, `e` as `encrypt`.
pub proof fn lemma_aliases(args: Seq<Seq<char>>)
    requires
        args.len() >= 1,
    ensures
        args[0] == "d"@ ==> invocation_spec(args) == invocation_spec(args.update(0, "decrypt"@)),
        args[0] == "e"@ ==> invocation_spec(args) == invocation_spec(args.update(0, "encrypt"@)),
{
    reveal_strlit("encrypt");
    reveal_strlit("e");
    reveal_strlit("decrypt");
    reveal_strlit("d");
    assert("encrypt"@ != "d"@ && "e"@ != "d"@ && "e"@ != "decrypt"@ && "encrypt"@ != "decrypt"@) by {
        assert("e"@[0] != "d"@[0]);
        assert("encrypt"@[0] != "decrypt"@[0]);
    }
    let a1 = args.update(0, "decrypt"@);
    let a2 = args.update(0, "encrypt"@);
    assert(a1.subrange(1, a1.len() as int) =~= args.subrange(1, args.len() as int));
    if args.len() >= 2 {
        assert(a2.subrange(2, a2.len() as int) =~= args.subrange(2, args.len() as int));
        assert(a1[1] == args[1]);
        assert(a2[1] == args[1]);
    }
}

} // verus!
