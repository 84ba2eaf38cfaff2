//! Rendering a descriptor as one shell command string.

use vstd::prelude::*;
use vstd::string::StringExecFns;
use vstd::utf8::{decode_utf8, valid_utf8};
use crate::command::{
    bytes_of, del_entries, delta_wf, entries_of, lemma_del_entries_contains, lemma_partition_wf,
    lemma_set_entries_contains, set_entries, Command, CommandView,
};
use crate::error::BoundaryTextViolation;
use crate::quote::{escape, escape_spec, join, join_spec, join_with, texts};

verus! {

/// The name/value pairs held by a list of borrowed pairs.
pub open spec fn pairs_of(v: Seq<(&Vec<u8>, &Vec<u8>)>) -> Seq<(Seq<u8>, Seq<u8>)> {
    v.map_values(|p: (&Vec<u8>, &Vec<u8>)| (p.0@, p.1@))
}

/// The byte strings held by a list of borrowed vectors.
pub open spec fn refs_of(v: Seq<&Vec<u8>>) -> Seq<Seq<u8>> {
    v.map_values(|b: &Vec<u8>| b@)
}

/// Splits a descriptor into its program, its arguments, its working
/// directory, the variables it sets and the variables it removes, all
/// borrowed from the descriptor. The last two form a well-formed delta.
pub fn decompose_command(cmd: &Command) -> (parts: (
    &Vec<u8>,
    &Vec<Vec<u8>>,
    Option<&Vec<u8>>,
    Vec<(&Vec<u8>, &Vec<u8>)>,
    Vec<&Vec<u8>>,
))
    ensures
        parts.0@ == cmd@.program,
        bytes_of(parts.1@) == cmd@.args,
        parts.2 matches Some(dir) ==> cmd@.cwd == Some(dir@),
        parts.2 is None ==> cmd@.cwd is None,
        pairs_of(parts.3@) == cmd@.env_set(),
        refs_of(parts.4@) == cmd@.env_del(),
        delta_wf(cmd@.env_set(), cmd@.env_del()),
{
    let exe = cmd.get_program();
    let args = cmd.get_args();
    let cwd = cmd.get_current_dir();
    let env = cmd.get_envs();
    let mut env_set: Vec<(&Vec<u8>, &Vec<u8>)> = Vec::new();
    let mut env_del: Vec<&Vec<u8>> = Vec::new();
    let ghost all = entries_of(env@);
    let mut i: usize = 0;
    assert(all.take(0) =~= Seq::empty());
    while i < env.len()
        invariant
            i <= env@.len(),
            all == entries_of(env@),
            pairs_of(env_set@) == set_entries(all.take(i as int)),
            refs_of(env_del@) == del_entries(all.take(i as int)),
        decreases env@.len() - i,
    {
        let ghost set_before = pairs_of(env_set@);
        let ghost del_before = refs_of(env_del@);
        let entry = &env[i];
        match &entry.1 {
            Some(v) => {
                env_set.push((&entry.0, v));
                assert(pairs_of(env_set@) =~= set_before.push((entry.0@, v@)));
            },
            None => {
                env_del.push(&entry.0);
                assert(refs_of(env_del@) =~= del_before.push(entry.0@));
            },
        }
        assert(all.take(i + 1).drop_last() =~= all.take(i as int));
        i += 1;
    }
    proof {
        assert(all.take(i as int) =~= all);
        lemma_partition_wf(all);
    }
    (exe, args, cwd, env_set, env_del)
}

/// The text that a well-formed UTF-8 byte string encodes.
pub open spec fn text_of(bytes: Seq<u8>) -> Seq<char> {
    decode_utf8(bytes)
}

/// Every component of the descriptor is well-formed UTF-8.
pub open spec fn is_text(d: CommandView) -> bool {
    &&& valid_utf8(d.program)
    &&& forall|i: int| 0 <= i < d.args.len() ==> valid_utf8(#[trigger] d.args[i])
    &&& forall|i: int|
        0 <= i < d.envs.len() ==> {
            &&& valid_utf8((#[trigger] d.envs[i]).0)
            &&& d.envs[i].1 matches Some(v) ==> valid_utf8(v)
        }
    &&& d.cwd matches Some(dir) ==> valid_utf8(dir)
}

/// The statement that sets the variable `name` to `value`.
pub open spec fn export_text(name: Seq<char>, value: Seq<char>) -> Seq<char> {
    "export "@ + name + "="@ + escape_spec(value) + ";"@
}

/// The statement that removes the variable `name`.
pub open spec fn unset_text(name: Seq<char>) -> Seq<char> {
    "unset "@ + name + ";"@
}

/// The statements that set the variables of `set`, joined by spaces.
pub open spec fn exports_text(set: Seq<(Seq<u8>, Seq<u8>)>) -> Seq<char> {
    join_with(
        set.map_values(|p: (Seq<u8>, Seq<u8>)| export_text(text_of(p.0), text_of(p.1))),
        " "@,
    )
}

/// The statements that remove the variables of `del`, joined by spaces.
pub open spec fn unsets_text(del: Seq<Seq<u8>>) -> Seq<char> {
    join_with(del.map_values(|n: Seq<u8>| unset_text(text_of(n))), " "@)
}

/// The statement that changes to the working directory, if there is one.
pub open spec fn cd_text(cwd: Option<Seq<u8>>) -> Seq<char> {
    match cwd {
        Some(dir) => "cd "@ + escape_spec(text_of(dir)) + ";"@,
        None => Seq::empty(),
    }
}

/// The texts of a list of byte strings.
pub open spec fn texts_of(args: Seq<Seq<u8>>) -> Seq<Seq<char>> {
    args.map_values(|a: Seq<u8>| text_of(a))
}

/// The command string of a descriptor: the exports, the removals, the
/// change of directory, the quoted program and the quoted arguments, each
/// part separated from the next by one space.
pub open spec fn commandline_of(d: CommandView) -> Seq<char> {
    exports_text(d.env_set()) + " "@ + unsets_text(d.env_del()) + " "@ + cd_text(d.cwd) + " "@
        + escape_spec(text_of(d.program)) + " "@ + join_spec(texts_of(d.args))
}

/// Decodes the arguments, or reports that one of them is not text.
fn decode_args<'a>(args: &'a Vec<Vec<u8>>) -> (res: Option<Vec<&'a str>>)
    ensures
        res matches Some(words) ==> {
            &&& forall|i: int| 0 <= i < args@.len() ==> valid_utf8(#[trigger] bytes_of(args@)[i])
            &&& texts(words@) == texts_of(bytes_of(args@))
        },
        res is None ==> exists|i: int|
            0 <= i < args@.len() && !valid_utf8(#[trigger] bytes_of(args@)[i]),
{
    let mut words: Vec<&str> = Vec::new();
    let ghost all = bytes_of(args@);
    let mut i: usize = 0;
    while i < args.len()
        invariant
            i <= args@.len(),
            all == bytes_of(args@),
            forall|j: int| 0 <= j < i ==> valid_utf8(#[trigger] all[j]),
            texts(words@) == texts_of(all.take(i as int)),
        decreases args@.len() - i,
    {
        let ghost before = texts(words@);
        match std::str::from_utf8(args[i].as_slice()) {
            Ok(word) => {
                words.push(word);
                assert(texts(words@) =~= before.push(word@));
                assert(texts_of(all.take(i + 1)) =~= texts_of(all.take(i as int)).push(
                    text_of(all[i as int]),
                ));
            },
            Err(_) => {
                assert(!valid_utf8(all[i as int]));
                return None;
            },
        }
        i += 1;
    }
    assert(all.take(i as int) =~= all);
    Some(words)
}

/// Renders the exports, or reports that a name or value is not text.
fn render_exports(env_set: &Vec<(&Vec<u8>, &Vec<u8>)>) -> (res: Option<String>)
    ensures
        res matches Some(line) ==> {
            &&& forall|i: int|
                0 <= i < env_set@.len() ==> valid_utf8((#[trigger] pairs_of(env_set@)[i]).0)
                    && valid_utf8(pairs_of(env_set@)[i].1)
            &&& line@ == exports_text(pairs_of(env_set@))
        },
        res is None ==> exists|i: int|
            0 <= i < env_set@.len() && !(valid_utf8((#[trigger] pairs_of(env_set@)[i]).0)
                && valid_utf8(pairs_of(env_set@)[i].1)),
{
    let mut line = String::new();
    let ghost all = pairs_of(env_set@);
    let ghost render = |p: (Seq<u8>, Seq<u8>)| export_text(text_of(p.0), text_of(p.1));
    let mut i: usize = 0;
    assert(all.take(0).map_values(render) =~= Seq::empty());
    while i < env_set.len()
        invariant
            i <= env_set@.len(),
            all == pairs_of(env_set@),
            render == |p: (Seq<u8>, Seq<u8>)| export_text(text_of(p.0), text_of(p.1)),
            forall|j: int| 0 <= j < i ==> valid_utf8((#[trigger] all[j]).0) && valid_utf8(all[j].1),
            line@ == join_with(all.take(i as int).map_values(render), " "@),
        decreases env_set@.len() - i,
    {
        let ghost before = line@;
        let (k, v) = env_set[i];
        let name = match std::str::from_utf8(k.as_slice()) {
            Ok(name) => name,
            Err(_) => {
                assert(!valid_utf8(all[i as int].0));
                return None;
            },
        };
        let value = match std::str::from_utf8(v.as_slice()) {
            Ok(value) => value,
            Err(_) => {
                assert(!valid_utf8(all[i as int].1));
                return None;
            },
        };
        if i > 0 {
            line.append(" ");
        }
        line.append("export ");
        line.append(name);
        line.append("=");
        line.append(escape(value).as_str());
        line.append(";");
        proof {
            let parts = all.take(i + 1).map_values(render);
            assert(parts.drop_last() =~= all.take(i as int).map_values(render));
            assert(parts.last() == export_text(name@, value@));
            if i > 0 {
                assert(line@ =~= before + " "@ + export_text(name@, value@));
            } else {
                assert(before =~= Seq::<char>::empty());
                assert(line@ =~= export_text(name@, value@));
            }
        }
        i += 1;
    }
    assert(all.take(i as int) =~= all);
    Some(line)
}

/// Renders the removals, or reports that a name is not text.
fn render_unsets(env_del: &Vec<&Vec<u8>>) -> (res: Option<String>)
    ensures
        res matches Some(line) ==> {
            &&& forall|i: int| 0 <= i < env_del@.len() ==> valid_utf8(#[trigger] refs_of(env_del@)[i])
            &&& line@ == unsets_text(refs_of(env_del@))
        },
        res is None ==> exists|i: int|
            0 <= i < env_del@.len() && !valid_utf8(#[trigger] refs_of(env_del@)[i]),
{
    let mut line = String::new();
    let ghost all = refs_of(env_del@);
    let ghost render = |n: Seq<u8>| unset_text(text_of(n));
    let mut i: usize = 0;
    assert(all.take(0).map_values(render) =~= Seq::empty());
    while i < env_del.len()
        invariant
            i <= env_del@.len(),
            all == refs_of(env_del@),
            render == |n: Seq<u8>| unset_text(text_of(n)),
            forall|j: int| 0 <= j < i ==> valid_utf8(#[trigger] all[j]),
            line@ == join_with(all.take(i as int).map_values(render), " "@),
        decreases env_del@.len() - i,
    {
        let ghost before = line@;
        let name = match std::str::from_utf8(env_del[i].as_slice()) {
            Ok(name) => name,
            Err(_) => {
                assert(!valid_utf8(all[i as int]));
                return None;
            },
        };
        if i > 0 {
            line.append(" ");
        }
        line.append("unset ");
        line.append(name);
        line.append(";");
        proof {
            let parts = all.take(i + 1).map_values(render);
            assert(parts.drop_last() =~= all.take(i as int).map_values(render));
            assert(parts.last() == unset_text(name@));
            if i > 0 {
                assert(line@ =~= before + " "@ + unset_text(name@));
            } else {
                assert(before =~= Seq::<char>::empty());
                assert(line@ =~= unset_text(name@));
            }
        }
        i += 1;
    }
    assert(all.take(i as int) =~= all);
    Some(line)
}

/// If every variable to set and every variable to remove is text, so is
/// every environment change, and the other way round.
pub proof fn lemma_env_text(envs: Seq<(Seq<u8>, Option<Seq<u8>>)>)
    ensures
        (forall|i: int|
            0 <= i < envs.len() ==> {
                &&& valid_utf8((#[trigger] envs[i]).0)
                &&& envs[i].1 matches Some(v) ==> valid_utf8(v)
            }) <==> {
            &&& forall|i: int|
                0 <= i < set_entries(envs).len() ==> valid_utf8((#[trigger] set_entries(envs)[i]).0)
                    && valid_utf8(set_entries(envs)[i].1)
            &&& forall|i: int|
                0 <= i < del_entries(envs).len() ==> valid_utf8(#[trigger] del_entries(envs)[i])
        },
{
    let set = set_entries(envs);
    let del = del_entries(envs);
    let all_text = forall|i: int|
        0 <= i < envs.len() ==> {
            &&& valid_utf8((#[trigger] envs[i]).0)
            &&& envs[i].1 matches Some(v) ==> valid_utf8(v)
        };
    if all_text {
        assert forall|i: int| 0 <= i < set.len() implies valid_utf8((#[trigger] set[i]).0)
            && valid_utf8(set[i].1) by {
            assert(set.contains(set[i]));
            lemma_set_entries_contains(envs, set[i].0, set[i].1);
            let j = envs.index_of((set[i].0, Some(set[i].1)));
            assert(valid_utf8(envs[j].0));
        }
        assert forall|i: int| 0 <= i < del.len() implies valid_utf8(#[trigger] del[i]) by {
            assert(del.contains(del[i]));
            lemma_del_entries_contains(envs, del[i]);
            let j = envs.index_of((del[i], None));
            assert(valid_utf8(envs[j].0));
        }
    } else {
        let i = choose|i: int|
            0 <= i < envs.len() && !{
                &&& valid_utf8((#[trigger] envs[i]).0)
                &&& envs[i].1 matches Some(v) ==> valid_utf8(v)
            };
        assert(envs.contains(envs[i]));
        match envs[i].1 {
            Some(v) => {
                lemma_set_entries_contains(envs, envs[i].0, v);
                let j = set.index_of((envs[i].0, v));
                assert(!(valid_utf8(set[j].0) && valid_utf8(set[j].1)));
            },
            None => {
                lemma_del_entries_contains(envs, envs[i].0);
                let j = del.index_of(envs[i].0);
                assert(!valid_utf8(del[j]));
            },
        }
    }
}

/// Renders the descriptor as one shell command string, for the operation
/// named `purpose`.
///
/// Fails exactly when some component of the descriptor is not well-formed
/// UTF-8: the command string could not carry it.
pub fn convert_to_commandline(cmd: &Command, purpose: &'static str) -> (res: Result<
    String,
    BoundaryTextViolation,
>)
    ensures
        match res {
            Ok(line) => is_text(cmd@) && line@ == commandline_of(cmd@),
            Err(e) => !is_text(cmd@) && e.purpose@ == purpose@,
        },
{
    let (exe, args, cwd, env_set, env_del) = decompose_command(cmd);
    proof {
        lemma_env_text(cmd@.envs);
    }
    let exe = match std::str::from_utf8(exe.as_slice()) {
        Ok(exe) => escape(exe),
        Err(_) => {
            return Err(BoundaryTextViolation { purpose });
        },
    };
    let args = match decode_args(args) {
        Some(words) => join(&words),
        None => {
            return Err(BoundaryTextViolation { purpose });
        },
    };
    let env_set = match render_exports(&env_set) {
        Some(line) => line,
        None => {
            return Err(BoundaryTextViolation { purpose });
        },
    };
    let env_del = match render_unsets(&env_del) {
        Some(line) => line,
        None => {
            return Err(BoundaryTextViolation { purpose });
        },
    };
    let cwd = match cwd {
        Some(dir) => match std::str::from_utf8(dir.as_slice()) {
            Ok(dir) => {
                let mut line = String::from_str("cd ");
                line.append(escape(dir).as_str());
                line.append(";");
                line
            },
            Err(_) => {
                return Err(BoundaryTextViolation { purpose });
            },
        },
        None => String::new(),
    };
    let mut line = env_set;
    line.append(" ");
    line.append(env_del.as_str());
    line.append(" ");
    line.append(cwd.as_str());
    line.append(" ");
    line.append(exe.as_str());
    line.append(" ");
    line.append(args.as_str());
    Ok(line)
}

} // verus!
