//! The parts of a descriptor that a failure keeps in order to name the
//! command it is about.

use vstd::prelude::*;
use vstd::slice::slice_to_vec;
use vstd::string::StringExecFns;
use crate::command::{bytes_of, Command};
use crate::quote::join_with;
use crate::text::{decode_lossy, lossy_text};

verus! {

/// The program of a command.
#[derive(Debug)]
pub struct Exe(pub Vec<u8>);

impl View for Exe {
    type V = Seq<u8>;

    open spec fn view(&self) -> Seq<u8> {
        self.0@
    }
}

impl Exe {
    /// The program of `cmd`.
    pub fn from(cmd: &Command) -> (exe: Exe)
        ensures
            exe@ == cmd@.program,
    {
        Exe(slice_to_vec(cmd.get_program().as_slice()))
    }

    /// The program as text, lossily decoded.
    pub fn to_text(&self) -> (text: String)
        ensures
            text@ == lossy_text(self@),
    {
        decode_lossy(self.0.as_slice())
    }
}

/// A copy of a list of byte strings.
pub(crate) fn copy_all(list: &Vec<Vec<u8>>) -> (copy: Vec<Vec<u8>>)
    ensures
        bytes_of(copy@) == bytes_of(list@),
{
    let mut copy: Vec<Vec<u8>> = Vec::new();
    let mut i: usize = 0;
    while i < list.len()
        invariant
            i <= list@.len(),
            bytes_of(copy@) == bytes_of(list@).take(i as int),
        decreases list@.len() - i,
    {
        let ghost before = bytes_of(copy@);
        copy.push(slice_to_vec(list[i].as_slice()));
        assert(bytes_of(copy@) =~= before.push(list@[i as int]@));
        assert(bytes_of(list@).take(i + 1) =~= bytes_of(list@).take(i as int).push(list@[i as int]@));
        i += 1;
    }
    assert(bytes_of(list@).take(i as int) =~= bytes_of(list@));
    copy
}

/// The program and the arguments of a command.
#[derive(Debug)]
pub struct ExeAndArgs {
    pub exe: Vec<u8>,
    pub args: Vec<Vec<u8>>,
}

/// The mathematical value of an [`ExeAndArgs`].
pub struct ExeAndArgsView {
    pub exe: Seq<u8>,
    pub args: Seq<Seq<u8>>,
}

impl View for ExeAndArgs {
    type V = ExeAndArgsView;

    open spec fn view(&self) -> ExeAndArgsView {
        ExeAndArgsView { exe: self.exe@, args: bytes_of(self.args@) }
    }
}

/// The lossily decoded texts of a list of byte strings.
pub open spec fn lossy_texts(args: Seq<Seq<u8>>) -> Seq<Seq<char>> {
    args.map_values(|a: Seq<u8>| lossy_text(a))
}

impl ExeAndArgsView {
    /// The command as text: the program, then, if there are arguments, a
    /// space and the arguments joined by spaces, all lossily decoded and
    /// none of it quoted.
    pub open spec fn text(self) -> Seq<char> {
        if self.args.len() == 0 {
            lossy_text(self.exe)
        } else {
            lossy_text(self.exe) + " "@ + join_with(lossy_texts(self.args), " "@)
        }
    }
}

impl ExeAndArgs {
    /// The program and the arguments of `cmd`.
    pub fn from(cmd: &Command) -> (this: ExeAndArgs)
        ensures
            this@ == (ExeAndArgsView { exe: cmd@.program, args: cmd@.args }),
    {
        let exe = slice_to_vec(cmd.get_program().as_slice());
        let args = copy_all(cmd.get_args());
        ExeAndArgs { exe, args }
    }

    /// A copy of this value.
    pub fn duplicate(&self) -> (copy: ExeAndArgs)
        ensures
            copy@ == self@,
    {
        ExeAndArgs { exe: slice_to_vec(self.exe.as_slice()), args: copy_all(&self.args) }
    }

    /// The command as text.
    pub fn to_text(&self) -> (text: String)
        ensures
            text@ == self@.text(),
    {
        let mut text = decode_lossy(self.exe.as_slice());
        if self.args.len() > 0 {
            text.append(" ");
            let ghost head = text@;
            let ghost all = lossy_texts(self@.args);
            let mut i: usize = 0;
            assert(all.take(0) =~= Seq::empty());
            while i < self.args.len()
                invariant
                    i <= self.args@.len(),
                    all == lossy_texts(self@.args),
                    text@ == head + join_with(all.take(i as int), " "@),
                decreases self.args@.len() - i,
            {
                let ghost before = join_with(all.take(i as int), " "@);
                if i > 0 {
                    text.append(" ");
                }
                let arg = decode_lossy(self.args[i].as_slice());
                text.append(arg.as_str());
                proof {
                    let parts = all.take(i + 1);
                    assert(parts.drop_last() =~= all.take(i as int));
                    assert(parts.last() == arg@);
                    if i > 0 {
                        assert(text@ =~= head + (before + " "@ + arg@));
                    } else {
                        assert(before =~= Seq::<char>::empty());
                        assert(text@ =~= head + arg@);
                    }
                }
                i += 1;
            }
            assert(all.take(i as int) =~= all);
        }
        text
    }
}

} // verus!
