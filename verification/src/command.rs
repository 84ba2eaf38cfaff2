//! The invocation descriptor: a program, its arguments, an optional working
//! directory and the changes to make to the environment.
//!
//! Every text component is a platform byte string, which need not be
//! well-formed UTF-8.

use vstd::prelude::*;
use vstd::slice::slice_to_vec;

verus! {

/// The mathematical value of a [`Command`].
pub struct CommandView {
    pub program: Seq<u8>,
    pub args: Seq<Seq<u8>>,
    pub cwd: Option<Seq<u8>>,
    /// The environment changes, in the order in which their names first
    /// appeared: a value to set, or `None` for a variable to remove.
    pub envs: Seq<(Seq<u8>, Option<Seq<u8>>)>,
}

/// The names of a list of environment changes.
pub open spec fn names_of(envs: Seq<(Seq<u8>, Option<Seq<u8>>)>) -> Seq<Seq<u8>> {
    envs.map_values(|e: (Seq<u8>, Option<Seq<u8>>)| e.0)
}

/// The changes of `envs` that set a variable, in order.
pub open spec fn set_entries(envs: Seq<(Seq<u8>, Option<Seq<u8>>)>) -> Seq<(Seq<u8>, Seq<u8>)>
    decreases envs.len(),
{
    if envs.len() == 0 {
        Seq::empty()
    } else {
        let init = set_entries(envs.drop_last());
        match envs.last().1 {
            Some(v) => init.push((envs.last().0, v)),
            None => init,
        }
    }
}

/// The names of the changes of `envs` that remove a variable, in order.
pub open spec fn del_entries(envs: Seq<(Seq<u8>, Option<Seq<u8>>)>) -> Seq<Seq<u8>>
    decreases envs.len(),
{
    if envs.len() == 0 {
        Seq::empty()
    } else {
        let init = del_entries(envs.drop_last());
        match envs.last().1 {
            Some(_) => init,
            None => init.push(envs.last().0),
        }
    }
}

/// `envs` after recording the change `val` for `key`: a change already
/// recorded for `key` is replaced where it stands, a new one goes last.
pub open spec fn put(envs: Seq<(Seq<u8>, Option<Seq<u8>>)>, key: Seq<u8>, val: Option<Seq<u8>>) -> Seq<
    (Seq<u8>, Option<Seq<u8>>),
> {
    if names_of(envs).contains(key) {
        envs.update(names_of(envs).index_of(key), (key, val))
    } else {
        envs.push((key, val))
    }
}

impl CommandView {
    /// The names of the environment changes.
    pub open spec fn names(self) -> Seq<Seq<u8>> {
        names_of(self.envs)
    }

    /// No variable has two changes recorded.
    pub open spec fn wf(self) -> bool {
        self.names().no_duplicates()
    }

    /// The variables to set, with their values.
    pub open spec fn env_set(self) -> Seq<(Seq<u8>, Seq<u8>)> {
        set_entries(self.envs)
    }

    /// The variables to remove.
    pub open spec fn env_del(self) -> Seq<Seq<u8>> {
        del_entries(self.envs)
    }
}

/// The invariant of an environment delta: no name is set twice, none is
/// removed twice, and none is both set and removed.
pub open spec fn delta_wf(set: Seq<(Seq<u8>, Seq<u8>)>, del: Seq<Seq<u8>>) -> bool {
    let set_names = set.map_values(|p: (Seq<u8>, Seq<u8>)| p.0);
    &&& set_names.no_duplicates()
    &&& del.no_duplicates()
    &&& set_names.disjoint(del)
}

/// An element is in a non-empty sequence if it is the last one or among
/// those before.
pub proof fn lemma_contains_last<A>(s: Seq<A>, x: A)
    requires
        s.len() > 0,
    ensures
        s.contains(x) <==> (s.drop_last().contains(x) || s.last() == x),
{
    if s.contains(x) {
        let i = s.index_of(x);
        if i < s.len() - 1 {
            assert(s.drop_last()[i] == x);
        }
    }
    if s.drop_last().contains(x) {
        let i = s.drop_last().index_of(x);
        assert(s[i] == x);
    }
    if s.last() == x {
        assert(s[s.len() - 1] == x);
    }
}

/// An element is in `s.push(y)` if it is `y` or in `s`.
pub proof fn lemma_contains_push<A>(s: Seq<A>, y: A, x: A)
    ensures
        s.push(y).contains(x) <==> (s.contains(x) || y == x),
{
    assert(s.push(y).drop_last() =~= s);
    lemma_contains_last(s.push(y), x);
}

/// The variables to set are exactly the changes that carry a value.
pub proof fn lemma_set_entries_contains(
    envs: Seq<(Seq<u8>, Option<Seq<u8>>)>,
    key: Seq<u8>,
    val: Seq<u8>,
)
    ensures
        set_entries(envs).contains((key, val)) <==> envs.contains((key, Some(val))),
    decreases envs.len(),
{
    if envs.len() > 0 {
        let init = envs.drop_last();
        lemma_set_entries_contains(init, key, val);
        lemma_contains_last(envs, (key, Some(val)));
        match envs.last().1 {
            Some(v) => {
                lemma_contains_push(set_entries(init), (envs.last().0, v), (key, val));
            },
            None => {},
        }
    }
}

/// The variables to remove are exactly the changes that carry no value.
pub proof fn lemma_del_entries_contains(envs: Seq<(Seq<u8>, Option<Seq<u8>>)>, key: Seq<u8>)
    ensures
        del_entries(envs).contains(key) <==> envs.contains((key, None)),
    decreases envs.len(),
{
    if envs.len() > 0 {
        let init = envs.drop_last();
        lemma_del_entries_contains(init, key);
        lemma_contains_last(envs, (key, None));
        match envs.last().1 {
            Some(_) => {},
            None => {
                lemma_contains_push(del_entries(init), envs.last().0, key);
            },
        }
    }
}

/// Splitting changes without a repeated name gives a well-formed delta.
pub proof fn lemma_partition_wf(envs: Seq<(Seq<u8>, Option<Seq<u8>>)>)
    requires
        names_of(envs).no_duplicates(),
    ensures
        delta_wf(set_entries(envs), del_entries(envs)),
    decreases envs.len(),
{
    let set = set_entries(envs);
    let del = del_entries(envs);
    let set_names = set.map_values(|p: (Seq<u8>, Seq<u8>)| p.0);
    if envs.len() > 0 {
        let init = envs.drop_last();
        let last = envs.last();
        assert(names_of(init) =~= names_of(envs).drop_last());
        lemma_partition_wf(init);
        let init_set = set_entries(init);
        let init_del = del_entries(init);
        let init_set_names = init_set.map_values(|p: (Seq<u8>, Seq<u8>)| p.0);
        assert forall|i: int| 0 <= i < init_set.len() implies init_set_names[i] != last.0 by {
            let p = init_set[i];
            assert(init_set.contains(p));
            lemma_set_entries_contains(init, p.0, p.1);
            let j = init.index_of((p.0, Some(p.1)));
            assert(names_of(envs)[j] == p.0);
            assert(names_of(envs)[envs.len() - 1] == last.0);
        }
        assert forall|i: int| 0 <= i < init_del.len() implies init_del[i] != last.0 by {
            let k = init_del[i];
            assert(init_del.contains(k));
            lemma_del_entries_contains(init, k);
            let j = init.index_of((k, None));
            assert(names_of(envs)[j] == k);
            assert(names_of(envs)[envs.len() - 1] == last.0);
        }
        match last.1 {
            Some(v) => {
                assert(set_names =~= init_set_names.push(last.0));
            },
            None => {
                assert(set_names =~= init_set_names);
            },
        }
    }
}

/// The byte strings held by a list of vectors.
pub open spec fn bytes_of(v: Seq<Vec<u8>>) -> Seq<Seq<u8>> {
    v.map_values(|a: Vec<u8>| a@)
}

/// The value of an optional byte string.
pub open spec fn opt_bytes(v: Option<Vec<u8>>) -> Option<Seq<u8>> {
    match v {
        Some(b) => Some(b@),
        None => None,
    }
}

/// The environment changes held by a list of entries.
pub open spec fn entries_of(v: Seq<(Vec<u8>, Option<Vec<u8>>)>) -> Seq<(Seq<u8>, Option<Seq<u8>>)> {
    v.map_values(|e: (Vec<u8>, Option<Vec<u8>>)| (e.0@, opt_bytes(e.1)))
}

/// A process-invocation descriptor.
#[derive(Debug)]
pub struct Command {
    program: Vec<u8>,
    args: Vec<Vec<u8>>,
    cwd: Option<Vec<u8>>,
    envs: Vec<(Vec<u8>, Option<Vec<u8>>)>,
}

impl View for Command {
    type V = CommandView;

    closed spec fn view(&self) -> CommandView {
        CommandView {
            program: self.program@,
            args: bytes_of(self.args@),
            cwd: opt_bytes(self.cwd),
            envs: entries_of(self.envs@),
        }
    }
}

/// Whether two byte strings are equal.
pub(crate) fn same_bytes(a: &[u8], b: &[u8]) -> (same: bool)
    ensures
        same == (a@ == b@),
{
    if a.len() != b.len() {
        return false;
    }
    let mut i: usize = 0;
    while i < a.len()
        invariant
            a@.len() == b@.len(),
            i <= a@.len(),
            a@.take(i as int) == b@.take(i as int),
        decreases a@.len() - i,
    {
        if a[i] != b[i] {
            assert(a@[i as int] != b@[i as int]);
            return false;
        }
        assert(a@.take(i + 1) =~= a@.take(i as int).push(a@[i as int]));
        assert(b@.take(i + 1) =~= b@.take(i as int).push(b@[i as int]));
        i += 1;
    }
    assert(a@ =~= a@.take(i as int));
    assert(b@ =~= b@.take(i as int));
    true
}

impl Command {
    #[verifier::type_invariant]
    spec fn inv(self) -> bool {
        names_of(entries_of(self.envs@)).no_duplicates()
    }

    /// A descriptor for `program`, with no arguments, no working directory
    /// and no environment changes.
    pub fn new(program: &[u8]) -> (cmd: Command)
        ensures
            cmd@ == (CommandView {
                program: program@,
                args: Seq::empty(),
                cwd: None,
                envs: Seq::empty(),
            }),
    {
        let cmd = Command {
            program: slice_to_vec(program),
            args: Vec::new(),
            cwd: None,
            envs: Vec::new(),
        };
        assert(bytes_of(cmd.args@) =~= Seq::empty());
        assert(entries_of(cmd.envs@) =~= Seq::empty());
        cmd
    }

    /// Adds one argument behind those already there.
    pub fn arg(self, arg: &[u8]) -> (cmd: Command)
        ensures
            cmd@ == (CommandView { args: self@.args.push(arg@), ..self@ }),
    {
        proof {
            use_type_invariant(&self);
        }
        let Command { program, mut args, cwd, envs } = self;
        let ghost before = args@;
        args.push(slice_to_vec(arg));
        assert(bytes_of(args@) =~= bytes_of(before).push(arg@));
        Command { program, args, cwd, envs }
    }

    /// Sets the working directory.
    pub fn current_dir(self, dir: &[u8]) -> (cmd: Command)
        ensures
            cmd@ == (CommandView { cwd: Some(dir@), ..self@ }),
    {
        proof {
            use_type_invariant(&self);
        }
        let Command { program, args, cwd: _, envs } = self;
        Command { program, args, cwd: Some(slice_to_vec(dir)), envs }
    }

    /// Records the change `val` for the variable `key`.
    #[verifier::loop_isolation(false)]
    fn record(self, key: &[u8], val: Option<Vec<u8>>) -> (cmd: Command)
        ensures
            cmd@ == (CommandView { envs: put(self@.envs, key@, opt_bytes(val)), ..self@ }),
    {
        proof {
            use_type_invariant(&self);
        }
        let Command { program, args, cwd, mut envs } = self;
        let ghost before = entries_of(envs@);
        let ghost names = names_of(before);
        let mut i: usize = 0;
        while i < envs.len()
            invariant
                i <= envs@.len(),
                before == entries_of(envs@),
                names == names_of(before),
                names.no_duplicates(),
                forall|j: int| 0 <= j < i ==> names[j] != key@,
            decreases envs@.len() - i,
        {
            if same_bytes(envs[i].0.as_slice(), key) {
                assert(names[i as int] == key@);
                assert(names.contains(key@));
                assert(names.index_of(key@) == i as int) by {
                    let k = names.index_of(key@);
                    assert(0 <= k < names.len() && names[k] == key@);
                }
                envs.set(i, (slice_to_vec(key), val));
                assert(entries_of(envs@) =~= before.update(i as int, (key@, opt_bytes(val))));
                assert(names_of(entries_of(envs@)) =~= names);
                return Command { program, args, cwd, envs };
            }
            assert(names[i as int] != key@);
            i += 1;
        }
        assert(!names.contains(key@));
        envs.push((slice_to_vec(key), val));
        assert(entries_of(envs@) =~= before.push((key@, opt_bytes(val))));
        assert(names_of(entries_of(envs@)) =~= names.push(key@));
        Command { program, args, cwd, envs }
    }

    /// Asks for the variable `key` to be set to `val`, in place of any change
    /// recorded for `key` before.
    pub fn env(self, key: &[u8], val: &[u8]) -> (cmd: Command)
        ensures
            cmd@ == (CommandView { envs: put(self@.envs, key@, Some(val@)), ..self@ }),
    {
        self.record(key, Some(slice_to_vec(val)))
    }

    /// Asks for the variable `key` to be removed, in place of any change
    /// recorded for `key` before.
    pub fn env_remove(self, key: &[u8]) -> (cmd: Command)
        ensures
            cmd@ == (CommandView { envs: put(self@.envs, key@, None), ..self@ }),
    {
        self.record(key, None)
    }

    /// The program.
    pub fn get_program(&self) -> (program: &Vec<u8>)
        ensures
            program@ == self@.program,
    {
        &self.program
    }

    /// The arguments, in order.
    pub fn get_args(&self) -> (args: &Vec<Vec<u8>>)
        ensures
            bytes_of(args@) == self@.args,
    {
        &self.args
    }

    /// The working directory, if one was set.
    pub fn get_current_dir(&self) -> (cwd: Option<&Vec<u8>>)
        ensures
            cwd matches Some(dir) ==> self@.cwd == Some(dir@),
            cwd is None ==> self@.cwd is None,
    {
        match &self.cwd {
            Some(dir) => Some(dir),
            None => None,
        }
    }

    /// The environment changes; no variable occurs in them twice.
    pub fn get_envs(&self) -> (envs: &Vec<(Vec<u8>, Option<Vec<u8>>)>)
        ensures
            entries_of(envs@) == self@.envs,
            self@.wf(),
    {
        proof {
            use_type_invariant(self);
        }
        &self.envs
    }
}

} // verus!
