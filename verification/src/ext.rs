//! The extra behaviours of a descriptor: rewriting it to run under another
//! identity, on another host or into a file, and classifying how a run ended.

use vstd::prelude::*;
use vstd::string::{StrSliceExecFns, StringExecFns};
use vstd::utf8::{decode_utf8, encode_utf8, valid_utf8};
use crate::command::{bytes_of, delta_wf, Command, CommandView};
use crate::commandline::{
    commandline_of, convert_to_commandline, decompose_command, is_text, pairs_of, refs_of,
};
use crate::error::utils::{Exe, ExeAndArgs, ExeAndArgsView};
use crate::error::{
    BoundaryTextViolation, CheckOutputError, CheckStatusError, ExecutionError, NonUtf8OutputError,
    StatusError,
};
use crate::output::{ExitStatus, Output, OutputView, RawOutput};
use crate::quote::{escape, escape_spec};

verus! {

/// The variables to set, as environment changes.
pub open spec fn as_sets(set: Seq<(Seq<u8>, Seq<u8>)>) -> Seq<(Seq<u8>, Option<Seq<u8>>)> {
    set.map_values(|p: (Seq<u8>, Seq<u8>)| (p.0, Some(p.1)))
}

/// The variables to remove, as environment changes.
pub open spec fn as_dels(del: Seq<Seq<u8>>) -> Seq<(Seq<u8>, Option<Seq<u8>>)> {
    del.map_values(|n: Seq<u8>| (n, None::<Seq<u8>>))
}

/// The descriptor that runs `d` through `sudo`, as `user` if one is given:
/// the program and the arguments of `d` become arguments, the working
/// directory is kept, and the environment changes are kept, those that set a
/// variable before those that remove one.
pub open spec fn escalated(d: CommandView, user: Option<Seq<char>>) -> CommandView {
    let selector = match user {
        Some(u) => seq![encode_utf8("-u"@), encode_utf8(u)],
        None => Seq::empty(),
    };
    CommandView {
        program: encode_utf8("sudo"@),
        args: selector + seq![d.program] + d.args,
        cwd: d.cwd,
        envs: as_sets(d.env_set()) + as_dels(d.env_del()),
    }
}

/// The ASCII digit `0`.
pub const ZERO: u8 = 48;

/// The ASCII full stop.
pub const DOT: u8 = 46;

/// The ASCII commercial at.
pub const AT: u8 = 64;

/// The decimal digits of `n`, in ASCII.
pub open spec fn decimal(n: nat) -> Seq<u8>
    decreases n,
{
    if n < 10 {
        seq![(ZERO + n) as u8]
    } else {
        decimal(n / 10).push((ZERO + n % 10) as u8)
    }
}

/// The address `ip` in dotted decimal notation, in ASCII.
pub open spec fn dotted(ip: Seq<u8>) -> Seq<u8> {
    decimal(ip[0] as nat) + seq![DOT] + decimal(ip[1] as nat) + seq![DOT] + decimal(ip[2] as nat)
        + seq![DOT] + decimal(ip[3] as nat)
}

/// The remote target `user@ip`.
pub open spec fn remote_target(user: Seq<char>, ip: Seq<u8>) -> Seq<u8> {
    encode_utf8(user) + seq![AT] + dotted(ip)
}

/// The descriptor that runs `d` on the host `ip` through `ssh`, logging in as
/// `user` with the identity file `key_file`; all of `d` travels as one
/// command string.
pub open spec fn remote(d: CommandView, user: Seq<char>, ip: Seq<u8>, key_file: Seq<u8>) -> CommandView {
    CommandView {
        program: encode_utf8("ssh"@),
        args: seq![
            encode_utf8("-i"@),
            key_file,
            remote_target(user, ip),
            encode_utf8(commandline_of(d)),
        ],
        cwd: None,
        envs: Seq::empty(),
    }
}

/// The descriptor that runs `d` through `bash` with its standard output
/// written to the file `path`.
pub open spec fn redirected(d: CommandView, path: Seq<char>) -> CommandView {
    CommandView {
        program: encode_utf8("bash"@),
        args: seq![encode_utf8("-c"@), encode_utf8(commandline_of(d) + " >"@ + escape_spec(path))],
        cwd: None,
        envs: Seq::empty(),
    }
}

/// The command that a failure names.
pub open spec fn named(d: CommandView) -> ExeAndArgsView {
    ExeAndArgsView { exe: d.program, args: d.args }
}

/// Extra behaviours of a process-invocation descriptor.
///
/// The methods that classify a run take what the platform returned from
/// starting the process and waiting for it.
pub trait CommandExt: View<V = CommandView> + Sized {
    /// The exit status of a run, or the failure to start it.
    fn check(&self, spawned: Result<ExitStatus, std::io::Error>) -> (res: Result<
        ExitStatus,
        ExecutionError,
    >)
        ensures
            match spawned {
                Ok(status) => res == Ok::<ExitStatus, ExecutionError>(status),
                Err(source) => res matches Err(e) && e.exe@ == self@.program && e.source
                    == source,
            },
    ;

    /// Succeeds exactly when the process started and reported success.
    fn check_status(&self, spawned: Result<ExitStatus, std::io::Error>) -> (res: Result<
        (),
        CheckStatusError,
    >)
        ensures
            match spawned {
                Ok(status) => if status.success {
                    res is Ok
                } else {
                    res matches Err(CheckStatusError::Status(e)) && e.cmd@ == named(self@)
                        && e.status == status
                },
                Err(source) => res matches Err(CheckStatusError::Execution(e)) && e.exe@
                    == self@.program && e.source == source,
            },
    ;

    /// The standard output of a successful run as text, exactly as captured.
    fn check_output(&self, spawned: Result<RawOutput, std::io::Error>) -> (res: Result<
        String,
        CheckOutputError,
    >)
        ensures
            match spawned {
                Ok(output) => if !output.status.success {
                    res matches Err(CheckOutputError::Status(e)) && e.cmd@ == named(self@)
                        && e.status == output.status
                } else if valid_utf8(output.stdout@) {
                    res matches Ok(text) && text@ == decode_utf8(output.stdout@)
                } else {
                    res matches Err(CheckOutputError::NonUtf8Output(e)) && e.cmd@ == named(self@)
                },
                Err(source) => res matches Err(CheckOutputError::Execution(e)) && e.exe@
                    == self@.program && e.source == source,
            },
    ;

    /// The whole outcome of a run, whatever its status, undecoded.
    fn check_full_output(&self, spawned: Result<RawOutput, std::io::Error>) -> (res: Result<
        Output,
        ExecutionError,
    >)
        ensures
            match spawned {
                Ok(output) => res matches Ok(out) && out@ == (OutputView {
                    status: output.status,
                    stdout: output.stdout@,
                    stderr: output.stderr@,
                    cmd: named(self@),
                }),
                Err(source) => res matches Err(e) && e.exe@ == self@.program && e.source
                    == source,
            },
    ;

    /// A new descriptor that runs this one as the superuser.
    fn run_as_root(&self) -> (new: Self)
        ensures
            new@ == escalated(self@, None),
    ;

    /// A new descriptor that runs this one as `user`.
    fn run_as(&self, user: &str) -> (new: Self)
        ensures
            new@ == escalated(self@, Some(user@)),
    ;

    /// A new descriptor that runs this one on the host `ip`, logging in as
    /// `user` with the identity file `key_file`. Fails exactly when some
    /// component of this descriptor is not well-formed UTF-8.
    fn run_on_remote(&self, user: &str, ip: [u8; 4], key_file: &[u8]) -> (res: Result<
        Self,
        BoundaryTextViolation,
    >)
        ensures
            match res {
                Ok(new) => is_text(self@) && new@ == remote(self@, user@, ip@, key_file@),
                Err(e) => !is_text(self@) && e.purpose@ == "run_on_remote"@,
            },
    ;

    /// A new descriptor that runs this one with its standard output written
    /// to the file `path`. Fails exactly when some component of this
    /// descriptor is not well-formed UTF-8.
    fn redirect(&self, path: &str) -> (res: Result<Self, BoundaryTextViolation>)
        ensures
            match res {
                Ok(new) => is_text(self@) && new@ == redirected(self@, path@),
                Err(e) => !is_text(self@) && e.purpose@ == "redirect"@,
            },
    ;
}

/// Appends the decimal digits of `n`.
fn push_decimal(out: &mut Vec<u8>, n: u8)
    ensures
        final(out)@ == old(out)@ + decimal(n as nat),
{
    let ghost before = out@;
    if n >= 100 {
        out.push(ZERO + n / 100);
    }
    if n >= 10 {
        out.push(ZERO + (n / 10) % 10);
    }
    out.push(ZERO + n % 10);
    proof {
        reveal_with_fuel(decimal, 3);
        let m = n as nat;
        if n >= 100 {
            assert(m / 10 / 10 == m / 100);
            assert(m / 100 < 10);
            assert((m / 10) % 10 == (n / 10) % 10);
            assert(out@ =~= before + decimal(m));
        } else if n >= 10 {
            assert(m / 10 < 10);
            assert(out@ =~= before + decimal(m));
        } else {
            assert(out@ =~= before + decimal(m));
        }
    }
}

/// The remote target `user@ip`.
fn target(user: &str, ip: [u8; 4]) -> (out: Vec<u8>)
    ensures
        out@ == remote_target(user@, ip@),
{
    let mut out = user.as_bytes_vec();
    out.push(AT);
    push_decimal(&mut out, ip[0]);
    out.push(DOT);
    push_decimal(&mut out, ip[1]);
    out.push(DOT);
    push_decimal(&mut out, ip[2]);
    out.push(DOT);
    push_decimal(&mut out, ip[3]);
    assert(out@ =~= remote_target(user@, ip@));
    out
}

/// A new descriptor that runs `cmd` through `sudo`, as `user` if one is given.
fn escalate(cmd: &Command, user: Option<&str>) -> (new: Command)
    ensures
        new@ == escalated(
            cmd@,
            match user {
                Some(u) => Some(u@),
                None => None,
            },
        ),
{
    let (exe, args, cwd, env_set, env_del) = decompose_command(cmd);
    let mut new = Command::new("sudo".as_bytes());
    match user {
        Some(u) => {
            new = new.arg("-u".as_bytes());
            new = new.arg(u.as_bytes());
        },
        None => {},
    }
    new = new.arg(exe.as_slice());
    let ghost head = new@.args;
    let ghost rest = bytes_of(args@);
    let mut i: usize = 0;
    while i < args.len()
        invariant
            i <= args@.len(),
            rest == bytes_of(args@),
            new@ == (CommandView {
                program: encode_utf8("sudo"@),
                args: head + rest.take(i as int),
                cwd: None,
                envs: Seq::empty(),
            }),
        decreases args@.len() - i,
    {
        new = new.arg(args[i].as_slice());
        assert(head + rest.take(i + 1) =~= (head + rest.take(i as int)).push(rest[i as int]));
        i += 1;
    }
    assert(rest.take(i as int) =~= rest);
    match cwd {
        Some(dir) => {
            new = new.current_dir(dir.as_slice());
        },
        None => {},
    }
    let ghost shell = new@;
    let ghost set = pairs_of(env_set@);
    let ghost del = refs_of(env_del@);
    let ghost set_names = set.map_values(|p: (Seq<u8>, Seq<u8>)| p.0);
    let mut i: usize = 0;
    assert(as_sets(set.take(0)) =~= Seq::empty());
    while i < env_set.len()
        invariant
            i <= env_set@.len(),
            set == pairs_of(env_set@),
            set_names == set.map_values(|p: (Seq<u8>, Seq<u8>)| p.0),
            set_names.no_duplicates(),
            new@ == (CommandView { envs: as_sets(set.take(i as int)), ..shell }),
        decreases env_set@.len() - i,
    {
        let (k, v) = env_set[i];
        proof {
            let names = crate::command::names_of(new@.envs);
            assert(names =~= set_names.take(i as int));
            assert(set_names[i as int] == k@);
            assert forall|j: int| 0 <= j < names.len() implies names[j] != k@ by {
                assert(set_names[j] != set_names[i as int]);
            }
            assert(as_sets(set.take(i + 1)) =~= as_sets(set.take(i as int)).push((k@, Some(v@))));
        }
        new = new.env(k.as_slice(), v.as_slice());
        i += 1;
    }
    assert(set.take(i as int) =~= set);
    let mut i: usize = 0;
    assert(as_sets(set) + as_dels(del.take(0)) =~= as_sets(set));
    while i < env_del.len()
        invariant
            i <= env_del@.len(),
            set == pairs_of(env_set@),
            del == refs_of(env_del@),
            set_names == set.map_values(|p: (Seq<u8>, Seq<u8>)| p.0),
            delta_wf(set, del),
            new@ == (CommandView { envs: as_sets(set) + as_dels(del.take(i as int)), ..shell }),
        decreases env_del@.len() - i,
    {
        let k = env_del[i];
        proof {
            let names = crate::command::names_of(new@.envs);
            assert(names =~= set_names + del.take(i as int));
            assert(del[i as int] == k@);
            assert forall|j: int| 0 <= j < names.len() implies names[j] != k@ by {
                if j < set_names.len() {
                    assert(set_names[j] != del[i as int]);
                } else {
                    assert(del[j - set_names.len()] != del[i as int]);
                }
            }
            assert(as_sets(set) + as_dels(del.take(i + 1)) =~= (as_sets(set) + as_dels(
                del.take(i as int),
            )).push((k@, None)));
        }
        new = new.env_remove(k.as_slice());
        i += 1;
    }
    assert(del.take(i as int) =~= del);
    assert(new@.args =~= escalated(
        cmd@,
        match user {
            Some(u) => Some(u@),
            None => None,
        },
    ).args);
    new
}

impl CommandExt for Command {
    fn check(&self, spawned: Result<ExitStatus, std::io::Error>) -> (res: Result<
        ExitStatus,
        ExecutionError,
    >) {
        match spawned {
            Ok(status) => Ok(status),
            Err(source) => Err(ExecutionError { exe: Exe::from(self), source }),
        }
    }

    fn check_status(&self, spawned: Result<ExitStatus, std::io::Error>) -> (res: Result<
        (),
        CheckStatusError,
    >) {
        let status = match self.check(spawned) {
            Ok(status) => status,
            Err(e) => {
                return Err(CheckStatusError::from(e));
            },
        };
        if !status.success() {
            return Err(CheckStatusError::from(StatusError { cmd: ExeAndArgs::from(self), status }));
        }
        Ok(())
    }

    fn check_output(&self, spawned: Result<RawOutput, std::io::Error>) -> (res: Result<
        String,
        CheckOutputError,
    >) {
        let output = match spawned {
            Ok(output) => output,
            Err(source) => {
                return Err(CheckOutputError::from(ExecutionError { exe: Exe::from(self), source }));
            },
        };
        let RawOutput { status, stdout, stderr: _ } = output;
        if !status.success() {
            return Err(CheckOutputError::from(StatusError { cmd: ExeAndArgs::from(self), status }));
        }
        match std::str::from_utf8(stdout.as_slice()) {
            Ok(text) => Ok(text.to_owned()),
            Err(source) => Err(
                CheckOutputError::from(NonUtf8OutputError { cmd: ExeAndArgs::from(self), source }),
            ),
        }
    }

    fn check_full_output(&self, spawned: Result<RawOutput, std::io::Error>) -> (res: Result<
        Output,
        ExecutionError,
    >) {
        match spawned {
            Ok(output) => Ok(Output::new(self, output)),
            Err(source) => Err(ExecutionError { exe: Exe::from(self), source }),
        }
    }

    fn run_as_root(&self) -> (new: Self) {
        escalate(self, None)
    }

    fn run_as(&self, user: &str) -> (new: Self) {
        escalate(self, Some(user))
    }

    fn run_on_remote(&self, user: &str, ip: [u8; 4], key_file: &[u8]) -> (res: Result<
        Self,
        BoundaryTextViolation,
    >) {
        let cmd = match convert_to_commandline(self, "run_on_remote") {
            Ok(cmd) => cmd,
            Err(e) => {
                return Err(e);
            },
        };
        let mut new = Command::new("ssh".as_bytes());
        new = new.arg("-i".as_bytes());
        new = new.arg(key_file);
        new = new.arg(target(user, ip).as_slice());
        new = new.arg(cmd.as_str().as_bytes());
        assert(new@.args =~= remote(self@, user@, ip@, key_file@).args);
        Ok(new)
    }

    fn redirect(&self, path: &str) -> (res: Result<Self, BoundaryTextViolation>) {
        let mut cmd = match convert_to_commandline(self, "redirect") {
            Ok(cmd) => cmd,
            Err(e) => {
                return Err(e);
            },
        };
        cmd.append(" >");
        cmd.append(escape(path).as_str());
        let mut new = Command::new("bash".as_bytes());
        new = new.arg("-c".as_bytes());
        new = new.arg(cmd.as_str().as_bytes());
        assert(new@.args =~= redirected(self@, path@).args);
        Ok(new)
    }
}

} // verus!
