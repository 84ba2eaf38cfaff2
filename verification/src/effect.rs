//! What the command string of a descriptor comes to when a shell runs it.

use vstd::prelude::*;
use vstd::utf8::{
    decode_utf8_encode_utf8, encode_utf8_decode_utf8, encode_utf8_valid_utf8, valid_utf8,
};
use crate::command::{
    del_entries, lemma_del_entries_contains, lemma_partition_wf, lemma_set_entries_contains,
    names_of, set_entries, CommandView,
};
use crate::commandline::{
    cd_text, commandline_of, export_text, exports_text, is_text, text_of, texts_of, unset_text,
    unsets_text,
};
use crate::ext::{as_dels, as_sets, escalated, redirected, remote};
use crate::quote::{escape_spec, is_bare, join_spec};
use crate::shell::{
    effect, is_assignment_at, is_dir, is_name, is_name_char, is_shell_word, lemma_read_concat,
    lemma_read_escape, lemma_read_join, lemma_read_one, word_tokens, Effect, Phase, Reader, Shell,
    Token,
};

verus! {

/// The word `NAME=VALUE`.
pub open spec fn assignment(name: Seq<char>, value: Seq<char>) -> Seq<char> {
    name + seq!['='] + value
}

/// The tokens of the statement that sets `name` to `value`.
pub open spec fn export_tokens(name: Seq<char>, value: Seq<char>) -> Seq<Token> {
    seq![Token::Word("export"@), Token::Word(assignment(name, value)), Token::Semi]
}

/// The tokens of the statement that removes `name`.
pub open spec fn unset_tokens(name: Seq<char>) -> Seq<Token> {
    seq![Token::Word("unset"@), Token::Word(name), Token::Semi]
}

/// The tokens of the statements that set the variables of `set`.
pub open spec fn exports_tokens(set: Seq<(Seq<u8>, Seq<u8>)>) -> Seq<Token>
    decreases set.len(),
{
    if set.len() == 0 {
        Seq::empty()
    } else {
        exports_tokens(set.drop_last()) + export_tokens(
            text_of(set.last().0),
            text_of(set.last().1),
        )
    }
}

/// The tokens of the statements that remove the variables of `del`.
pub open spec fn unsets_tokens(del: Seq<Seq<u8>>) -> Seq<Token>
    decreases del.len(),
{
    if del.len() == 0 {
        Seq::empty()
    } else {
        unsets_tokens(del.drop_last()) + unset_tokens(text_of(del.last()))
    }
}

/// The tokens of the statement that changes to the working directory.
pub open spec fn cd_tokens(cwd: Option<Seq<u8>>) -> Seq<Token> {
    match cwd {
        Some(dir) => seq![Token::Word("cd"@), Token::Word(text_of(dir)), Token::Semi],
        None => Seq::empty(),
    }
}

/// Every character of `w` is one that quoting leaves as it is.
pub open spec fn all_bare(w: Seq<char>) -> bool {
    forall|i: int| 0 <= i < w.len() ==> is_bare(#[trigger] w[i])
}

/// Outside quoting, bare characters add themselves to the word being read.
pub proof fn lemma_read_bare(r: Reader, w: Seq<char>)
    requires
        r.mode is Plain,
        all_bare(w),
        w.len() > 0,
    ensures
        r.read(w) == r.extend(w),
    decreases w.len(),
{
    let init = w.drop_last();
    let c = w.last();
    assert(is_bare(w[w.len() - 1]));
    if init.len() == 0 {
        assert(r.read(init) == r);
        assert(r.text().push(c) =~= r.text() + w);
    } else {
        assert forall|i: int| 0 <= i < init.len() implies is_bare(#[trigger] init[i]) by {
            assert(init[i] == w[i]);
        }
        lemma_read_bare(r, init);
        assert((r.text() + init).push(c) =~= r.text() + w);
    }
}

/// Between two words, a bare word followed by a space is read as that word.
pub proof fn lemma_read_keyword(r: Reader, kw: Seq<char>)
    requires
        r.mode is Plain,
        r.word is None,
        all_bare(kw),
        kw.len() > 0,
    ensures
        r.read(kw + seq![' ']) == r.emit(Token::Word(kw)),
{
    lemma_read_concat(r, kw, seq![' ']);
    lemma_read_bare(r, kw);
    lemma_read_one(r.extend(kw), ' ');
    assert(Seq::<char>::empty() + kw =~= kw);
}

/// Between two words, a space changes nothing.
pub proof fn lemma_read_space(r: Reader)
    requires
        r.mode is Plain,
        r.word is None,
    ensures
        r.read(" "@) == r,
{
    reveal_strlit(" ");
    assert(" "@ =~= seq![' ']);
    lemma_read_one(r, ' ');
}

/// Behind a word, a space ends the word.
pub proof fn lemma_read_space_after(r: Reader)
    requires
        r.mode is Plain,
    ensures
        r.read(" "@) == r.end_word(),
{
    reveal_strlit(" ");
    assert(" "@ =~= seq![' ']);
    lemma_read_one(r, ' ');
}

/// The name of a variable is made of bare characters only, none of them `=`.
pub proof fn lemma_name_bare(name: Seq<char>)
    requires
        is_name(name),
    ensures
        all_bare(name),
        forall|i: int| 0 <= i < name.len() ==> name[i] != '=',
{
    assert forall|i: int| 0 <= i < name.len() implies is_bare(#[trigger] name[i]) && name[i]
        != '=' by {
        assert(is_name_char(name[i]));
    }
}

/// Between two commands, the statement that sets a variable is read as its
/// three tokens.
pub proof fn lemma_read_export(r: Reader, name: Seq<char>, value: Seq<char>)
    requires
        r.mode is Plain,
        r.word is None,
        is_name(name),
    ensures
        r.read(export_text(name, value)) == (Reader {
            done: r.done + export_tokens(name, value),
            ..r
        }),
{
    reveal_strlit("export ");
    reveal_strlit("export");
    reveal_strlit("=");
    reveal_strlit(";");
    let kw = "export"@;
    assert("export "@ =~= kw + seq![' ']);
    assert("="@ =~= seq!['=']);
    assert(";"@ =~= seq![';']);
    let a = "export "@;
    let quoted = escape_spec(value);
    assert(export_text(name, value) == a + name + "="@ + quoted + ";"@);
    lemma_read_concat(r, a + name + "="@ + quoted, ";"@);
    lemma_read_concat(r, a + name + "="@, quoted);
    lemma_read_concat(r, a + name, "="@);
    lemma_read_concat(r, a, name);
    lemma_read_keyword(r, kw);
    let r1 = r.read(a);
    lemma_name_bare(name);
    lemma_read_bare(r1, name);
    let r2 = r1.read(name);
    lemma_read_one(r2, '=');
    let r3 = r2.step('=');
    assert(r2.after_command_name());
    assert(!is_bare('='));
    lemma_read_escape(r3, value);
    let r4 = r3.read(quoted);
    lemma_read_one(r4, ';');
    assert(r4.text() =~= assignment(name, value));
    assert(r4.step(';').done =~= r.done + export_tokens(name, value));
}

/// Between two commands, the statement that removes a variable is read as
/// its three tokens.
pub proof fn lemma_read_unset(r: Reader, name: Seq<char>)
    requires
        r.mode is Plain,
        r.word is None,
        is_name(name),
    ensures
        r.read(unset_text(name)) == (Reader { done: r.done + unset_tokens(name), ..r }),
{
    reveal_strlit("unset ");
    reveal_strlit("unset");
    reveal_strlit(";");
    let kw = "unset"@;
    assert("unset "@ =~= kw + seq![' ']);
    assert(";"@ =~= seq![';']);
    let a = "unset "@;
    lemma_read_concat(r, a + name, ";"@);
    lemma_read_concat(r, a, name);
    lemma_read_keyword(r, kw);
    let r1 = r.read(a);
    lemma_name_bare(name);
    lemma_read_bare(r1, name);
    let r2 = r1.read(name);
    lemma_read_one(r2, ';');
    assert(r2.text() =~= name);
    assert(r2.step(';').done =~= r.done + unset_tokens(name));
}

/// Between two commands, the statement that changes the directory is read
/// as its three tokens; without a directory nothing is read.
pub proof fn lemma_read_cd(r: Reader, cwd: Option<Seq<u8>>)
    requires
        r.mode is Plain,
        r.word is None,
    ensures
        r.read(cd_text(cwd)) == (Reader { done: r.done + cd_tokens(cwd), ..r }),
{
    match cwd {
        Some(dir) => {
            reveal_strlit("cd ");
            reveal_strlit("cd");
            reveal_strlit(";");
            let kw = "cd"@;
            assert("cd "@ =~= kw + seq![' ']);
            assert(";"@ =~= seq![';']);
            let a = "cd "@;
            let quoted = escape_spec(text_of(dir));
            lemma_read_concat(r, a + quoted, ";"@);
            lemma_read_concat(r, a, quoted);
            lemma_read_keyword(r, kw);
            let r1 = r.read(a);
            lemma_read_escape(r1, text_of(dir));
            let r2 = r1.read(quoted);
            lemma_read_one(r2, ';');
            assert(r2.text() =~= text_of(dir));
            assert(r2.step(';').done =~= r.done + cd_tokens(cwd));
        },
        None => {
            assert(r.done + cd_tokens(cwd) =~= r.done);
        },
    }
}

/// The names of the variables that `set` sets are names of variables.
pub open spec fn set_names_ok(set: Seq<(Seq<u8>, Seq<u8>)>) -> bool {
    forall|i: int| 0 <= i < set.len() ==> is_name(text_of((#[trigger] set[i]).0))
}

/// The names of the variables that `del` removes are names of variables.
pub open spec fn del_names_ok(del: Seq<Seq<u8>>) -> bool {
    forall|i: int| 0 <= i < del.len() ==> is_name(text_of(#[trigger] del[i]))
}

/// Between two commands, the statements that set variables are read as
/// their tokens.
pub proof fn lemma_read_exports(r: Reader, set: Seq<(Seq<u8>, Seq<u8>)>)
    requires
        r.mode is Plain,
        r.word is None,
        set_names_ok(set),
    ensures
        r.read(exports_text(set)) == (Reader { done: r.done + exports_tokens(set), ..r }),
    decreases set.len(),
{
    let render = |p: (Seq<u8>, Seq<u8>)| export_text(text_of(p.0), text_of(p.1));
    let parts = set.map_values(render);
    if set.len() == 0 {
        assert(r.done + exports_tokens(set) =~= r.done);
    } else {
        let init = set.drop_last();
        let last = set.last();
        let stmt = export_text(text_of(last.0), text_of(last.1));
        assert(parts.drop_last() =~= init.map_values(render));
        assert(parts.last() == stmt);
        assert(set_names_ok(init)) by {
            assert forall|i: int| 0 <= i < init.len() implies is_name(
                text_of((#[trigger] init[i]).0),
            ) by {
                assert(init[i] == set[i]);
            }
        }
        assert(is_name(text_of(set[set.len() - 1].0)));
        lemma_read_exports(r, init);
        let r1 = r.read(exports_text(init));
        lemma_read_export(r1, text_of(last.0), text_of(last.1));
        if set.len() == 1 {
            assert(exports_text(set) == stmt);
            assert(exports_text(init) =~= Seq::<char>::empty());
        } else {
            assert(exports_text(set) == exports_text(init) + " "@ + stmt);
            lemma_read_concat(r, exports_text(init) + " "@, stmt);
            lemma_read_concat(r, exports_text(init), " "@);
            lemma_read_space(r1);
        }
        assert(r.done + exports_tokens(init) + export_tokens(text_of(last.0), text_of(last.1))
            =~= r.done + exports_tokens(set));
    }
}

/// Between two commands, the statements that remove variables are read as
/// their tokens.
pub proof fn lemma_read_unsets(r: Reader, del: Seq<Seq<u8>>)
    requires
        r.mode is Plain,
        r.word is None,
        del_names_ok(del),
    ensures
        r.read(unsets_text(del)) == (Reader { done: r.done + unsets_tokens(del), ..r }),
    decreases del.len(),
{
    let render = |n: Seq<u8>| unset_text(text_of(n));
    let parts = del.map_values(render);
    if del.len() == 0 {
        assert(r.done + unsets_tokens(del) =~= r.done);
    } else {
        let init = del.drop_last();
        let last = del.last();
        let stmt = unset_text(text_of(last));
        assert(parts.drop_last() =~= init.map_values(render));
        assert(parts.last() == stmt);
        assert(del_names_ok(init)) by {
            assert forall|i: int| 0 <= i < init.len() implies is_name(text_of(#[trigger] init[i])) by {
                assert(init[i] == del[i]);
            }
        }
        assert(is_name(text_of(del[del.len() - 1])));
        lemma_read_unsets(r, init);
        let r1 = r.read(unsets_text(init));
        lemma_read_unset(r1, text_of(last));
        if del.len() == 1 {
            assert(unsets_text(del) == stmt);
            assert(unsets_text(init) =~= Seq::<char>::empty());
        } else {
            assert(unsets_text(del) == unsets_text(init) + " "@ + stmt);
            lemma_read_concat(r, unsets_text(init) + " "@, stmt);
            lemma_read_concat(r, unsets_text(init), " "@);
            lemma_read_space(r1);
        }
        assert(r.done + unsets_tokens(init) + unset_tokens(text_of(last)) =~= r.done
            + unsets_tokens(del));
    }
}

/// The tokens of the command string of `d`.
pub open spec fn commandline_tokens(d: CommandView) -> Seq<Token> {
    exports_tokens(d.env_set()) + unsets_tokens(d.env_del()) + cd_tokens(d.cwd) + seq![
        Token::Word(text_of(d.program)),
    ] + word_tokens(texts_of(d.args))
}

/// The state of the reader at the end of the command string of `d`: inside
/// the last word, or behind the space that follows the program.
pub proof fn lemma_read_commandline(d: CommandView)
    requires
        set_names_ok(d.env_set()),
        del_names_ok(d.env_del()),
    ensures
        Reader::start().read(commandline_of(d)).mode is Plain,
        Reader::start().read(commandline_of(d)).end_word().done == commandline_tokens(d),
{
    let r = Reader::start();
    let e = exports_text(d.env_set());
    let u = unsets_text(d.env_del());
    let c = cd_text(d.cwd);
    let p = escape_spec(text_of(d.program));
    let a = join_spec(texts_of(d.args));
    let sp = " "@;
    assert(commandline_of(d) == e + sp + u + sp + c + sp + p + sp + a);
    lemma_read_concat(r, e + sp + u + sp + c + sp + p + sp, a);
    lemma_read_concat(r, e + sp + u + sp + c + sp + p, sp);
    lemma_read_concat(r, e + sp + u + sp + c + sp, p);
    lemma_read_concat(r, e + sp + u + sp + c, sp);
    lemma_read_concat(r, e + sp + u + sp, c);
    lemma_read_concat(r, e + sp + u, sp);
    lemma_read_concat(r, e + sp, u);
    lemma_read_concat(r, e, sp);
    lemma_read_exports(r, d.env_set());
    let r1 = r.read(e);
    lemma_read_space(r1);
    lemma_read_unsets(r1, d.env_del());
    let r2 = r1.read(u);
    lemma_read_space(r2);
    lemma_read_cd(r2, d.cwd);
    let r3 = r2.read(c);
    lemma_read_space(r3);
    lemma_read_escape(r3, text_of(d.program));
    let r4 = r3.read(p);
    lemma_read_space_after(r4);
    let r5 = r4.end_word();
    assert(r4.text() =~= text_of(d.program));
    let head = exports_tokens(d.env_set()) + unsets_tokens(d.env_del()) + cd_tokens(d.cwd) + seq![
        Token::Word(text_of(d.program)),
    ];
    assert(r5.done =~= head);
    let words = texts_of(d.args);
    if words.len() == 0 {
        assert(a =~= Seq::<char>::empty());
        assert(r5.read(a) == r5);
        assert(head + word_tokens(words) =~= head);
    } else {
        lemma_read_join(r5, words);
        assert(word_tokens(words) =~= word_tokens(words.drop_last()).push(
            Token::Word(words.last()),
        ));
        assert(r5.read(a).end_word().done =~= head + word_tokens(words));
    }
}

/// Feeding `a + b` is feeding `a`, then `b`.
pub proof fn lemma_feed_concat(sh: Shell, a: Seq<Token>, b: Seq<Token>)
    ensures
        sh.feed_all(a + b) == sh.feed_all(a).feed_all(b),
    decreases b.len(),
{
    if b.len() == 0 {
        assert(a + b =~= a);
    } else {
        assert((a + b).drop_last() =~= a + b.drop_last());
        lemma_feed_concat(sh, a, b.drop_last());
    }
}

/// Feeding three tokens is three steps.
pub proof fn lemma_feed_three(sh: Shell, a: Token, b: Token, c: Token)
    ensures
        sh.feed_all(seq![a, b, c]) == sh.feed(a).feed(b).feed(c),
{
    let abc = seq![a, b, c];
    let ab = seq![a, b];
    let one = seq![a];
    assert(abc.drop_last() =~= ab);
    assert(ab.drop_last() =~= one);
    assert(one.drop_last() =~= Seq::<Token>::empty());
    assert(sh.feed_all(one) == sh.feed_all(one.drop_last()).feed(a));
    assert(sh.feed_all(ab) == sh.feed_all(ab.drop_last()).feed(b));
    assert(sh.feed_all(abc) == sh.feed_all(abc.drop_last()).feed(c));
}

/// The word `NAME=VALUE` is an assignment at the end of `NAME` and nowhere
/// else.
pub proof fn lemma_assignment_unique(name: Seq<char>, value: Seq<char>, i: int)
    requires
        is_name(name),
    ensures
        is_assignment_at(assignment(name, value), i) <==> i == name.len(),
{
    let word = assignment(name, value);
    lemma_name_bare(name);
    assert(word.take(name.len() as int) =~= name);
    assert(word[name.len() as int] == '=');
    if is_assignment_at(word, i) {
        if i < name.len() {
            assert(word[i] == name[i]);
        } else if i > name.len() {
            assert(word.take(i)[name.len() as int] == '=');
            assert(is_name_char(word.take(i)[name.len() as int]));
        }
    }
}

/// Between two commands, the statement that sets a variable records the
/// variable with its value.
pub proof fn lemma_feed_export(sh: Shell, name: Seq<char>, value: Seq<char>)
    requires
        sh.phase is Words,
        sh.words.len() == 0,
        is_name(name),
    ensures
        sh.feed_all(export_tokens(name, value)) == (Shell {
            env: sh.env.insert(name, Some(value)),
            ..sh
        }),
{
    let word = assignment(name, value);
    lemma_feed_three(sh, Token::Word("export"@), Token::Word(word), Token::Semi);
    let s2 = sh.feed(Token::Word("export"@)).feed(Token::Word(word));
    assert(s2.words =~= seq!["export"@, word]);
    lemma_assignment_unique(name, value, name.len() as int);
    let i = choose|i: int| is_assignment_at(word, i);
    lemma_assignment_unique(name, value, i);
    assert(word.take(i) =~= name);
    assert(word.skip(i + 1) =~= value);
    assert(sh.words =~= Seq::<Seq<char>>::empty());
}

/// Between two commands, the statement that removes a variable records the
/// removal.
pub proof fn lemma_feed_unset(sh: Shell, name: Seq<char>)
    requires
        sh.phase is Words,
        sh.words.len() == 0,
        is_name(name),
    ensures
        sh.feed_all(unset_tokens(name)) == (Shell { env: sh.env.insert(name, None), ..sh }),
{
    lemma_feed_three(sh, Token::Word("unset"@), Token::Word(name), Token::Semi);
    let s2 = sh.feed(Token::Word("unset"@)).feed(Token::Word(name));
    assert(s2.words =~= seq!["unset"@, name]);
    reveal_strlit("unset");
    reveal_strlit("export");
    assert("unset"@.len() != "export"@.len());
    assert(sh.words =~= Seq::<Seq<char>>::empty());
}

/// Between two commands, and before any change of directory, the statement
/// that changes the directory records it; without a directory nothing
/// happens.
pub proof fn lemma_feed_cd(sh: Shell, cwd: Option<Seq<u8>>)
    requires
        sh.phase is Words,
        sh.words.len() == 0,
        sh.cwd is None,
        cwd matches Some(dir) ==> is_dir(text_of(dir)),
    ensures
        sh.feed_all(cd_tokens(cwd)) == (Shell { cwd: opt_text(cwd), ..sh }),
{
    match cwd {
        Some(dir) => {
            let w = text_of(dir);
            lemma_feed_three(sh, Token::Word("cd"@), Token::Word(w), Token::Semi);
            let s2 = sh.feed(Token::Word("cd"@)).feed(Token::Word(w));
            assert(s2.words =~= seq!["cd"@, w]);
            reveal_strlit("cd");
            reveal_strlit("unset");
            reveal_strlit("export");
            assert("cd"@.len() != "export"@.len());
            assert("cd"@.len() != "unset"@.len());
            assert(sh.words =~= Seq::<Seq<char>>::empty());
        },
        None => {},
    }
}

/// The text of an optional byte string.
pub open spec fn opt_text(bytes: Option<Seq<u8>>) -> Option<Seq<char>> {
    match bytes {
        Some(b) => Some(text_of(b)),
        None => None,
    }
}

/// The environment `env` after the changes `envs`, made in order.
pub open spec fn env_after(
    env: Map<Seq<char>, Option<Seq<char>>>,
    envs: Seq<(Seq<u8>, Option<Seq<u8>>)>,
) -> Map<Seq<char>, Option<Seq<char>>>
    decreases envs.len(),
{
    if envs.len() == 0 {
        env
    } else {
        env_after(env, envs.drop_last()).insert(text_of(envs.last().0), opt_text(envs.last().1))
    }
}

/// The changes that `envs` makes to the environment: for each name the value
/// to set, or `None` for a variable to remove.
pub open spec fn env_of(envs: Seq<(Seq<u8>, Option<Seq<u8>>)>) -> Map<Seq<char>, Option<Seq<char>>> {
    env_after(Map::empty(), envs)
}

/// Making the changes `a + b` is making `a`, then `b`.
pub proof fn lemma_env_after_concat(
    env: Map<Seq<char>, Option<Seq<char>>>,
    a: Seq<(Seq<u8>, Option<Seq<u8>>)>,
    b: Seq<(Seq<u8>, Option<Seq<u8>>)>,
)
    ensures
        env_after(env, a + b) == env_after(env_after(env, a), b),
    decreases b.len(),
{
    if b.len() == 0 {
        assert(a + b =~= a);
    } else {
        assert((a + b).drop_last() =~= a + b.drop_last());
        lemma_env_after_concat(env, a, b.drop_last());
    }
}

/// Between two commands, the statements that set variables make those
/// changes to the environment.
pub proof fn lemma_feed_exports(sh: Shell, set: Seq<(Seq<u8>, Seq<u8>)>)
    requires
        sh.phase is Words,
        sh.words.len() == 0,
        set_names_ok(set),
    ensures
        sh.feed_all(exports_tokens(set)) == (Shell { env: env_after(sh.env, as_sets(set)), ..sh }),
    decreases set.len(),
{
    if set.len() == 0 {
        assert(as_sets(set) =~= Seq::empty());
    } else {
        let init = set.drop_last();
        let last = set.last();
        assert(set_names_ok(init)) by {
            assert forall|i: int| 0 <= i < init.len() implies is_name(
                text_of((#[trigger] init[i]).0),
            ) by {
                assert(init[i] == set[i]);
            }
        }
        assert(is_name(text_of(set[set.len() - 1].0)));
        lemma_feed_exports(sh, init);
        lemma_feed_concat(
            sh,
            exports_tokens(init),
            export_tokens(text_of(last.0), text_of(last.1)),
        );
        lemma_feed_export(sh.feed_all(exports_tokens(init)), text_of(last.0), text_of(last.1));
        assert(as_sets(set).drop_last() =~= as_sets(init));
    }
}

/// Between two commands, the statements that remove variables make those
/// changes to the environment.
pub proof fn lemma_feed_unsets(sh: Shell, del: Seq<Seq<u8>>)
    requires
        sh.phase is Words,
        sh.words.len() == 0,
        del_names_ok(del),
    ensures
        sh.feed_all(unsets_tokens(del)) == (Shell { env: env_after(sh.env, as_dels(del)), ..sh }),
    decreases del.len(),
{
    if del.len() == 0 {
        assert(as_dels(del) =~= Seq::empty());
    } else {
        let init = del.drop_last();
        let last = del.last();
        assert(del_names_ok(init)) by {
            assert forall|i: int| 0 <= i < init.len() implies is_name(text_of(#[trigger] init[i])) by {
                assert(init[i] == del[i]);
            }
        }
        assert(is_name(text_of(del[del.len() - 1])));
        lemma_feed_unsets(sh, init);
        lemma_feed_concat(sh, unsets_tokens(init), unset_tokens(text_of(last)));
        lemma_feed_unset(sh.feed_all(unsets_tokens(init)), text_of(last));
        assert(as_dels(del).drop_last() =~= as_dels(init));
    }
}

/// While a command is collected, words add themselves to it.
pub proof fn lemma_feed_words(sh: Shell, words: Seq<Seq<char>>)
    requires
        sh.phase is Words,
    ensures
        sh.feed_all(word_tokens(words)) == (Shell { words: sh.words + words, ..sh }),
    decreases words.len(),
{
    if words.len() == 0 {
        assert(sh.words + words =~= sh.words);
    } else {
        assert(word_tokens(words).drop_last() =~= word_tokens(words.drop_last()));
        lemma_feed_words(sh, words.drop_last());
        assert((sh.words + words.drop_last()).push(words.last()) =~= sh.words + words);
    }
}

/// The names of `envs` are well-formed UTF-8.
pub open spec fn names_valid(envs: Seq<(Seq<u8>, Option<Seq<u8>>)>) -> bool {
    forall|i: int| 0 <= i < envs.len() ==> valid_utf8((#[trigger] envs[i]).0)
}

/// Changes without a repeated name: each is found in the environment they
/// make.
pub proof fn lemma_env_of_lookup(envs: Seq<(Seq<u8>, Option<Seq<u8>>)>, i: int)
    requires
        names_of(envs).no_duplicates(),
        names_valid(envs),
        0 <= i < envs.len(),
    ensures
        env_of(envs).contains_key(text_of(envs[i].0)),
        env_of(envs)[text_of(envs[i].0)] == opt_text(envs[i].1),
    decreases envs.len(),
{
    let init = envs.drop_last();
    let last = envs.last();
    if i < envs.len() - 1 {
        assert(names_of(init) =~= names_of(envs).drop_last());
        assert(names_valid(init)) by {
            assert forall|j: int| 0 <= j < init.len() implies valid_utf8((#[trigger] init[j]).0) by {
                assert(init[j] == envs[j]);
            }
        }
        lemma_env_of_lookup(init, i);
        assert(init[i] == envs[i]);
        assert(names_of(envs)[i] != names_of(envs)[envs.len() - 1]);
        assert(text_of(envs[i].0) != text_of(last.0)) by {
            decode_utf8_encode_utf8(envs[i].0);
            decode_utf8_encode_utf8(last.0);
        }
    }
}

/// Every variable of the environment that `envs` makes is named by one of
/// the changes.
pub proof fn lemma_env_of_named(envs: Seq<(Seq<u8>, Option<Seq<u8>>)>, key: Seq<char>)
    requires
        env_of(envs).contains_key(key),
    ensures
        exists|i: int| 0 <= i < envs.len() && text_of((#[trigger] envs[i]).0) == key,
    decreases envs.len(),
{
    if envs.len() > 0 {
        let init = envs.drop_last();
        if text_of(envs.last().0) == key {
            assert(text_of(envs[envs.len() - 1].0) == key);
        } else {
            lemma_env_of_named(init, key);
            let i = choose|i: int| 0 <= i < init.len() && text_of((#[trigger] init[i]).0) == key;
            assert(text_of(envs[i].0) == key);
        }
    }
}

/// Two lists of changes, neither with a repeated name, that hold the same
/// changes make the same environment, whatever their order.
pub proof fn lemma_env_of_same(
    a: Seq<(Seq<u8>, Option<Seq<u8>>)>,
    b: Seq<(Seq<u8>, Option<Seq<u8>>)>,
)
    requires
        names_of(a).no_duplicates(),
        names_of(b).no_duplicates(),
        names_valid(a),
        forall|x: (Seq<u8>, Option<Seq<u8>>)| a.contains(x) <==> b.contains(x),
    ensures
        env_of(a) == env_of(b),
{
    assert(names_valid(b)) by {
        assert forall|j: int| 0 <= j < b.len() implies valid_utf8((#[trigger] b[j]).0) by {
            assert(b.contains(b[j]));
            let i = a.index_of(b[j]);
            assert(valid_utf8(a[i].0));
        }
    }
    assert forall|key: Seq<char>| #[trigger]
        env_of(a).dom().contains(key) == env_of(b).dom().contains(key) && (env_of(
            a,
        ).dom().contains(key) ==> env_of(a)[key] == env_of(b)[key]) by {
        if env_of(a).contains_key(key) {
            lemma_env_of_named(a, key);
            let i = choose|i: int| 0 <= i < a.len() && text_of((#[trigger] a[i]).0) == key;
            lemma_env_of_lookup(a, i);
            assert(a.contains(a[i]));
            let j = b.index_of(a[i]);
            lemma_env_of_lookup(b, j);
        }
        if env_of(b).contains_key(key) {
            lemma_env_of_named(b, key);
            let j = choose|j: int| 0 <= j < b.len() && text_of((#[trigger] b[j]).0) == key;
            assert(b.contains(b[j]));
            let i = a.index_of(b[j]);
            lemma_env_of_lookup(a, i);
        }
    }
    assert(env_of(a) =~= env_of(b));
}

/// The variables to set followed by the variables to remove hold the same
/// changes as the list they were split from, and repeat no name if that list
/// repeats none.
pub proof fn lemma_partition_same(envs: Seq<(Seq<u8>, Option<Seq<u8>>)>)
    requires
        names_of(envs).no_duplicates(),
    ensures
        names_of(as_sets(set_entries(envs)) + as_dels(del_entries(envs))).no_duplicates(),
        forall|x: (Seq<u8>, Option<Seq<u8>>)|
            envs.contains(x) <==> (as_sets(set_entries(envs)) + as_dels(del_entries(envs))).contains(
                x,
            ),
{
    let set = set_entries(envs);
    let del = del_entries(envs);
    let both = as_sets(set) + as_dels(del);
    let set_names = set.map_values(|p: (Seq<u8>, Seq<u8>)| p.0);
    lemma_partition_wf(envs);
    assert(names_of(both) =~= set_names + del);
    assert forall|i: int, j: int|
        0 <= i < names_of(both).len() && 0 <= j < names_of(both).len() && i != j implies names_of(
        both,
    )[i] != names_of(both)[j] by {
        let n = set_names.len() as int;
        if i < n && j < n {
            assert(set_names[i] != set_names[j]);
        } else if i < n {
            assert(set_names[i] != del[j - n]);
        } else if j < n {
            assert(set_names[j] != del[i - n]);
        } else {
            assert(del[i - n] != del[j - n]);
        }
    }
    assert forall|x: (Seq<u8>, Option<Seq<u8>>)| envs.contains(x) <==> both.contains(x) by {
        match x.1 {
            Some(v) => {
                lemma_set_entries_contains(envs, x.0, v);
                if set.contains((x.0, v)) {
                    let i = set.index_of((x.0, v));
                    assert(both[i] == x);
                }
                if both.contains(x) {
                    let i = both.index_of(x);
                    if i < set.len() {
                        assert(set[i] == (x.0, v));
                    } else {
                        assert(as_dels(del)[i - set.len()].1 is None);
                    }
                }
            },
            None => {
                lemma_del_entries_contains(envs, x.0);
                if del.contains(x.0) {
                    let i = del.index_of(x.0);
                    assert(both[set.len() + i] == x);
                }
                if both.contains(x) {
                    let i = both.index_of(x);
                    if i < set.len() {
                        assert(as_sets(set)[i].1 is Some);
                    } else {
                        assert(del[i - set.len()] == x.0);
                    }
                }
            },
        }
    }
}

/// Escalation keeps the environment changes: the new descriptor holds
/// exactly the changes of the old one, and again no variable has two.
pub proof fn lemma_escalated_env(d: CommandView, user: Option<Seq<char>>)
    requires
        d.wf(),
    ensures
        escalated(d, user).wf(),
        forall|x: (Seq<u8>, Option<Seq<u8>>)|
            d.envs.contains(x) <==> escalated(d, user).envs.contains(x),
{
    lemma_partition_same(d.envs);
}

/// The descriptor can travel as a command string: every component is text,
/// no variable has two changes, the variables have proper names, the program
/// is not a word that a shell keeps for itself, and the working directory can
/// be handed to `cd` as it stands.
pub open spec fn shell_ready(d: CommandView) -> bool {
    &&& is_text(d)
    &&& d.wf()
    &&& forall|i: int| 0 <= i < d.envs.len() ==> is_name(text_of((#[trigger] d.envs[i]).0))
    &&& !is_shell_word(text_of(d.program))
    &&& d.cwd matches Some(dir) ==> is_dir(text_of(dir))
}

/// What the descriptor asks for: its environment changes, its working
/// directory, and its program with its arguments.
pub open spec fn intended(d: CommandView) -> Effect {
    Effect {
        env: env_of(d.envs),
        cwd: opt_text(d.cwd),
        argv: seq![text_of(d.program)] + texts_of(d.args),
        stdout: None,
    }
}

/// The names of the two halves of a delta are proper if those of the whole
/// list are.
pub proof fn lemma_partition_names(envs: Seq<(Seq<u8>, Option<Seq<u8>>)>)
    requires
        forall|i: int| 0 <= i < envs.len() ==> is_name(text_of((#[trigger] envs[i]).0)),
    ensures
        set_names_ok(set_entries(envs)),
        del_names_ok(del_entries(envs)),
{
    let set = set_entries(envs);
    let del = del_entries(envs);
    assert forall|i: int| 0 <= i < set.len() implies is_name(text_of((#[trigger] set[i]).0)) by {
        assert(set.contains(set[i]));
        lemma_set_entries_contains(envs, set[i].0, set[i].1);
        let j = envs.index_of((set[i].0, Some(set[i].1)));
        assert(is_name(text_of(envs[j].0)));
    }
    assert forall|i: int| 0 <= i < del.len() implies is_name(text_of(#[trigger] del[i])) by {
        assert(del.contains(del[i]));
        lemma_del_entries_contains(envs, del[i]);
        let j = envs.index_of((del[i], None));
        assert(is_name(text_of(envs[j].0)));
    }
}

/// The state of the interpreter at the end of the command string of `d`.
pub proof fn lemma_feed_commandline(d: CommandView)
    requires
        shell_ready(d),
    ensures
        Shell::start().feed_all(commandline_tokens(d)) == (Shell {
            env: env_of(d.envs),
            cwd: opt_text(d.cwd),
            words: seq![text_of(d.program)] + texts_of(d.args),
            stdout: None,
            phase: Phase::Words,
        }),
{
    let sh = Shell::start();
    let set = d.env_set();
    let del = d.env_del();
    let e = exports_tokens(set);
    let u = unsets_tokens(del);
    let c = cd_tokens(d.cwd);
    let p = seq![Token::Word(text_of(d.program))];
    let a = word_tokens(texts_of(d.args));
    lemma_partition_names(d.envs);
    lemma_feed_concat(sh, e + u + c + p, a);
    lemma_feed_concat(sh, e + u + c, p);
    lemma_feed_concat(sh, e + u, c);
    lemma_feed_concat(sh, e, u);
    lemma_feed_exports(sh, set);
    let s1 = sh.feed_all(e);
    lemma_feed_unsets(s1, del);
    let s2 = s1.feed_all(u);
    lemma_feed_cd(s2, d.cwd);
    let s3 = s2.feed_all(c);
    assert(p =~= word_tokens(seq![text_of(d.program)]));
    lemma_feed_words(s3, seq![text_of(d.program)]);
    let s4 = s3.feed_all(p);
    lemma_feed_words(s4, texts_of(d.args));
    assert(Seq::<Seq<char>>::empty() + seq![text_of(d.program)] =~= seq![text_of(d.program)]);
    assert(s2.env == env_of(d.envs)) by {
        lemma_env_after_concat(Map::empty(), as_sets(set), as_dels(del));
        lemma_partition_same(d.envs);
        assert(names_valid(d.envs));
        lemma_env_of_same(d.envs, as_sets(set) + as_dels(del));
    }
}

/// Run by a shell, the command string of a descriptor sets and removes the
/// variables that the descriptor names, changes to its working directory and
/// runs its program with its arguments, and does nothing else.
pub proof fn lemma_commandline_effect(d: CommandView)
    requires
        shell_ready(d),
    ensures
        effect(commandline_of(d)) == Some(intended(d)),
{
    lemma_partition_names(d.envs);
    lemma_read_commandline(d);
    lemma_feed_commandline(d);
    let words = seq![text_of(d.program)] + texts_of(d.args);
    assert(words[0] == text_of(d.program));
}

/// Two descriptors that differ only in the order of their environment
/// changes give command strings with the same effect.
pub proof fn lemma_commandline_order(d1: CommandView, d2: CommandView)
    requires
        shell_ready(d1),
        shell_ready(d2),
        d1.program == d2.program,
        d1.args == d2.args,
        d1.cwd == d2.cwd,
        forall|x: (Seq<u8>, Option<Seq<u8>>)| d1.envs.contains(x) <==> d2.envs.contains(x),
    ensures
        effect(commandline_of(d1)) == effect(commandline_of(d2)),
{
    lemma_commandline_effect(d1);
    lemma_commandline_effect(d2);
    assert(names_valid(d1.envs));
    lemma_env_of_same(d1.envs, d2.envs);
}

/// Run by a shell, the command string that the remote descriptor carries as
/// its last argument has the effect that the descriptor asks for.
pub proof fn lemma_remote_effect(d: CommandView, user: Seq<char>, ip: Seq<u8>, key_file: Seq<u8>)
    requires
        shell_ready(d),
    ensures
        valid_utf8(remote(d, user, ip, key_file).args[3]),
        effect(text_of(remote(d, user, ip, key_file).args[3])) == Some(intended(d)),
{
    encode_utf8_valid_utf8(commandline_of(d));
    encode_utf8_decode_utf8(commandline_of(d));
    lemma_commandline_effect(d);
}

/// Run by a shell, the command string that the redirected descriptor hands
/// to `bash` has the effect that the descriptor asks for, with the standard
/// output of the program written to `path`.
pub proof fn lemma_redirect_effect(d: CommandView, path: Seq<char>)
    requires
        shell_ready(d),
    ensures
        valid_utf8(redirected(d, path).args[1]),
        effect(text_of(redirected(d, path).args[1])) == Some(
            Effect { stdout: Some(path), ..intended(d) },
        ),
{
    reveal_strlit(" >");
    let r = Reader::start();
    let line = commandline_of(d);
    let quoted = escape_spec(path);
    encode_utf8_valid_utf8(line + " >"@ + quoted);
    encode_utf8_decode_utf8(line + " >"@ + quoted);
    lemma_partition_names(d.envs);
    lemma_read_commandline(d);
    lemma_feed_commandline(d);
    assert(" >"@ =~= seq![' '] + seq!['>']);
    lemma_read_concat(r, line + " >"@, quoted);
    lemma_read_concat(r, line, " >"@);
    let r1 = r.read(line);
    lemma_read_concat(r1, seq![' '], seq!['>']);
    lemma_read_one(r1, ' ');
    let r2 = r1.step(' ');
    lemma_read_one(r2, '>');
    let r3 = r2.step('>');
    lemma_read_escape(r3, path);
    let r4 = r3.read(quoted);
    assert(Seq::<char>::empty() + path =~= path);
    let ts = commandline_tokens(d);
    let more = seq![Token::Into, Token::Word(path)];
    assert(r4.end_word().done =~= ts + more);
    let sh = Shell::start();
    lemma_feed_concat(sh, ts, more);
    let s1 = sh.feed_all(ts);
    assert(more.drop_last() =~= seq![Token::Into]);
    assert(seq![Token::Into].drop_last() =~= Seq::<Token>::empty());
    assert(s1.feed_all(seq![Token::Into]) == s1.feed_all(seq![Token::Into].drop_last()).feed(
        Token::Into,
    ));
    assert(s1.feed_all(more) == s1.feed_all(more.drop_last()).feed(Token::Word(path)));
    let words = seq![text_of(d.program)] + texts_of(d.args);
    assert(words[0] == text_of(d.program));
}

} // verus!
