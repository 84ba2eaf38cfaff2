//! A model of how a POSIX shell reads a command string, as far as this
//! library writes such strings: blanks, backslashes, single quotes, the
//! separator `;` and the redirection `>`. Anything else that a shell would
//! treat specially is reported as unsupported rather than guessed at.

use vstd::prelude::*;
use crate::quote::{escape_char, escape_each, escape_spec, is_bare, join_spec};

verus! {

/// A token of a command string.
pub enum Token {
    /// A word, after quote removal.
    Word(Seq<char>),
    /// The end of a command: `;` or an unquoted line feed.
    Semi,
    /// The operator `>`.
    Into,
}

/// Where the reader stands between two characters.
pub enum Mode {
    /// Outside any quoting.
    Plain,
    /// Directly behind an unquoted backslash.
    Escaped,
    /// Between single quotes.
    Quoted,
    /// The input has left the modelled part of the grammar.
    Unsupported,
}

/// The reader's state: the tokens finished so far, the word being read, if
/// any, and the quoting mode.
pub struct Reader {
    pub done: Seq<Token>,
    pub word: Option<Seq<char>>,
    pub mode: Mode,
}

impl Reader {
    /// The state before the first character.
    pub open spec fn start() -> Reader {
        Reader { done: Seq::empty(), word: None, mode: Mode::Plain }
    }

    /// The characters of the word being read; none if no word has begun.
    pub open spec fn text(self) -> Seq<char> {
        match self.word {
            Some(w) => w,
            None => Seq::empty(),
        }
    }

    /// The word being read, extended by `c`.
    pub open spec fn push(self, c: char) -> Reader {
        Reader { word: Some(self.text().push(c)), ..self }
    }

    /// The word being read, extended by `s`; a word begins even if `s` is empty.
    pub open spec fn extend(self, s: Seq<char>) -> Reader {
        Reader { word: Some(self.text() + s), ..self }
    }

    /// The same state in another mode.
    pub open spec fn enter(self, mode: Mode) -> Reader {
        Reader { mode, ..self }
    }

    /// The word being read, if any, moves to the finished tokens.
    pub open spec fn end_word(self) -> Reader {
        match self.word {
            Some(w) => Reader { done: self.done.push(Token::Word(w)), word: None, ..self },
            None => self,
        }
    }

    /// `t` is added to the finished tokens.
    pub open spec fn emit(self, t: Token) -> Reader {
        Reader { done: self.done.push(t), ..self }
    }

    /// True while the word being read is not the first of its command, so
    /// that a `=` in it cannot make it an assignment.
    pub open spec fn after_command_name(self) -> bool {
        self.done.len() > 0 && self.done.last() is Word
    }

    /// The state after reading the character `c`.
    pub open spec fn step(self, c: char) -> Reader {
        match self.mode {
            Mode::Unsupported => self,
            Mode::Escaped => if c == '\n' {
                self.enter(Mode::Plain)
            } else {
                self.push(c).enter(Mode::Plain)
            },
            Mode::Quoted => if c == '\'' {
                self.enter(Mode::Plain)
            } else {
                self.push(c)
            },
            Mode::Plain => if c == '\\' {
                self.enter(Mode::Escaped)
            } else if c == '\'' {
                self.extend(Seq::empty()).enter(Mode::Quoted)
            } else if c == ' ' || c == '\t' {
                self.end_word()
            } else if c == ';' || c == '\n' {
                self.end_word().emit(Token::Semi)
            } else if c == '>' && self.word is None {
                self.emit(Token::Into)
            } else if is_bare(c) || (c == '=' && self.after_command_name()) {
                self.push(c)
            } else {
                self.enter(Mode::Unsupported)
            },
        }
    }

    /// The state after reading all of `s`.
    pub open spec fn read(self, s: Seq<char>) -> Reader
        decreases s.len(),
    {
        if s.len() == 0 {
            self
        } else {
            self.read(s.drop_last()).step(s.last())
        }
    }

    /// The tokens read, once the input has ended; `None` if it ended inside
    /// a quotation or left the modelled grammar.
    pub open spec fn finish(self) -> Option<Seq<Token>> {
        if self.mode is Plain {
            Some(self.end_word().done)
        } else {
            None
        }
    }
}

/// The tokens of the command string `s`.
pub open spec fn tokens(s: Seq<char>) -> Option<Seq<Token>> {
    Reader::start().read(s).finish()
}

/// The tokens that stand for a list of words.
pub open spec fn word_tokens(words: Seq<Seq<char>>) -> Seq<Token> {
    words.map_values(|w: Seq<char>| Token::Word(w))
}

/// Characters that may begin the name of a variable.
pub open spec fn is_name_start(c: char) -> bool {
    ||| 'A' <= c <= 'Z'
    ||| 'a' <= c <= 'z'
    ||| c == '_'
}

/// Characters that may stand in the name of a variable.
pub open spec fn is_name_char(c: char) -> bool {
    is_name_start(c) || '0' <= c <= '9'
}

/// `s` is the name of a variable: letters, digits and underscores, the first
/// of them no digit.
pub open spec fn is_name(s: Seq<char>) -> bool {
    &&& s.len() > 0
    &&& is_name_start(s[0])
    &&& forall|i: int| 0 <= i < s.len() ==> is_name_char(#[trigger] s[i])
}

/// `word` has the form `NAME=VALUE`, with the `=` at index `i`.
pub open spec fn is_assignment_at(word: Seq<char>, i: int) -> bool {
    0 <= i < word.len() && word[i] == '=' && is_name(word.take(i))
}

/// `dir` can be handed to `cd` as it stands: it is not empty and does not
/// look like an option.
pub open spec fn is_dir(dir: Seq<char>) -> bool {
    dir.len() > 0 && dir[0] != '-'
}

/// Words that a shell does not look up as a program when they stand first
/// in a command: its reserved words and its special built-in utilities, and
/// `cd`.
pub open spec fn is_shell_word(w: Seq<char>) -> bool {
    ||| w == "case"@
    ||| w == "do"@
    ||| w == "done"@
    ||| w == "elif"@
    ||| w == "else"@
    ||| w == "esac"@
    ||| w == "fi"@
    ||| w == "for"@
    ||| w == "if"@
    ||| w == "in"@
    ||| w == "then"@
    ||| w == "until"@
    ||| w == "while"@
    ||| w == "break"@
    ||| w == ":"@
    ||| w == "."@
    ||| w == "continue"@
    ||| w == "eval"@
    ||| w == "exec"@
    ||| w == "exit"@
    ||| w == "export"@
    ||| w == "readonly"@
    ||| w == "return"@
    ||| w == "set"@
    ||| w == "shift"@
    ||| w == "times"@
    ||| w == "trap"@
    ||| w == "unset"@
    ||| w == "cd"@
}

/// What running a command string comes to: the changes made to the
/// environment (a value set, or `None` for a variable removed), the
/// directory changed to, the program run with its arguments, and the file
/// that takes its standard output.
pub struct Effect {
    pub env: Map<Seq<char>, Option<Seq<char>>>,
    pub cwd: Option<Seq<char>>,
    pub argv: Seq<Seq<char>>,
    pub stdout: Option<Seq<char>>,
}

/// Where the interpreter stands between two tokens.
pub enum Phase {
    /// Collecting the words of a command.
    Words,
    /// Directly behind `>`.
    Target,
    /// Behind the file name of a redirection.
    Closed,
    /// The input has left the modelled part of the language.
    Unsupported,
}

/// The interpreter's state: the effect so far and the words of the command
/// being collected.
pub struct Shell {
    pub env: Map<Seq<char>, Option<Seq<char>>>,
    pub cwd: Option<Seq<char>>,
    pub words: Seq<Seq<char>>,
    pub stdout: Option<Seq<char>>,
    pub phase: Phase,
}

impl Shell {
    /// The state before the first token.
    pub open spec fn start() -> Shell {
        Shell {
            env: Map::empty(),
            cwd: None,
            words: Seq::empty(),
            stdout: None,
            phase: Phase::Words,
        }
    }

    /// The same state, given up.
    pub open spec fn fail(self) -> Shell {
        Shell { phase: Phase::Unsupported, ..self }
    }

    /// The state after the command collected so far has been carried out.
    /// Only three commands may stand before the last one: `export NAME=VALUE`,
    /// `unset NAME`, and one `cd DIR`.
    pub open spec fn settle(self) -> Shell {
        let w = self.words;
        if w.len() != 2 {
            self.fail()
        } else if w[0] == "export"@ {
            if exists|i: int| is_assignment_at(w[1], i) {
                let i = choose|i: int| is_assignment_at(w[1], i);
                Shell {
                    env: self.env.insert(w[1].take(i), Some(w[1].skip(i + 1))),
                    words: Seq::empty(),
                    ..self
                }
            } else {
                self.fail()
            }
        } else if w[0] == "unset"@ {
            if is_name(w[1]) {
                Shell { env: self.env.insert(w[1], None), words: Seq::empty(), ..self }
            } else {
                self.fail()
            }
        } else if w[0] == "cd"@ {
            if is_dir(w[1]) && self.cwd is None {
                Shell { cwd: Some(w[1]), words: Seq::empty(), ..self }
            } else {
                self.fail()
            }
        } else {
            self.fail()
        }
    }

    /// The state after the token `t`.
    pub open spec fn feed(self, t: Token) -> Shell {
        match self.phase {
            Phase::Unsupported => self,
            Phase::Words => match t {
                Token::Word(w) => Shell { words: self.words.push(w), ..self },
                Token::Semi => self.settle(),
                Token::Into => if self.words.len() > 0 {
                    Shell { phase: Phase::Target, ..self }
                } else {
                    self.fail()
                },
            },
            Phase::Target => match t {
                Token::Word(w) => Shell { stdout: Some(w), phase: Phase::Closed, ..self },
                _ => self.fail(),
            },
            Phase::Closed => self.fail(),
        }
    }

    /// The state after all of `ts`.
    pub open spec fn feed_all(self, ts: Seq<Token>) -> Shell
        decreases ts.len(),
    {
        if ts.len() == 0 {
            self
        } else {
            self.feed_all(ts.drop_last()).feed(ts.last())
        }
    }

    /// The effect, once the tokens have ended: the command collected last is
    /// the program to run. `None` if there is no such command, if its name is
    /// one that a shell does not look up as a program, or if the input left
    /// the modelled language.
    pub open spec fn finish(self) -> Option<Effect> {
        if (self.phase is Words || self.phase is Closed) && self.words.len() > 0 && !is_shell_word(
            self.words[0],
        ) {
            Some(Effect { env: self.env, cwd: self.cwd, argv: self.words, stdout: self.stdout })
        } else {
            None
        }
    }
}

/// What running the command string `s` comes to, if the model covers it.
pub open spec fn effect(s: Seq<char>) -> Option<Effect> {
    match tokens(s) {
        Some(ts) => Shell::start().feed_all(ts).finish(),
        None => None,
    }
}

/// Reading `a + b` is reading `a`, then `b`.
pub proof fn lemma_read_concat(r: Reader, a: Seq<char>, b: Seq<char>)
    ensures
        r.read(a + b) == r.read(a).read(b),
    decreases b.len(),
{
    if b.len() == 0 {
        assert(a + b =~= a);
    } else {
        assert((a + b).drop_last() =~= a + b.drop_last());
        lemma_read_concat(r, a, b.drop_last());
    }
}

/// Reading a single character is one step.
pub proof fn lemma_read_one(r: Reader, c: char)
    ensures
        r.read(seq![c]) == r.step(c),
{
    assert(seq![c].drop_last() =~= Seq::<char>::empty());
    assert(r.read(seq![c]) == r.read(seq![c].drop_last()).step(c));
}

/// Outside quoting, the quoted form of one character adds that character to
/// the word being read and changes nothing else.
pub proof fn lemma_read_escape_char(r: Reader, c: char)
    requires
        r.mode is Plain,
    ensures
        r.read(escape_char(c)) == r.push(c),
{
    if c == '\n' {
        let q = seq!['\''];
        let n = seq!['\n'];
        assert(escape_char(c) =~= q + n + q);
        lemma_read_concat(r, q + n, q);
        lemma_read_concat(r, q, n);
        lemma_read_one(r, '\'');
        lemma_read_one(r.step('\''), '\n');
        lemma_read_one(r.step('\'').step('\n'), '\'');
        assert(r.text() + Seq::<char>::empty() =~= r.text());
    } else if is_bare(c) {
        lemma_read_one(r, c);
    } else {
        let b = seq!['\\'];
        let d = seq![c];
        assert(escape_char(c) =~= b + d);
        lemma_read_concat(r, b, d);
        lemma_read_one(r, '\\');
        lemma_read_one(r.step('\\'), c);
    }
}

/// Outside quoting, the quoted characters of a non-empty `word` add `word`
/// to the word being read.
pub proof fn lemma_read_escape_each(r: Reader, word: Seq<char>)
    requires
        r.mode is Plain,
        word.len() > 0,
    ensures
        r.read(escape_each(word)) == r.extend(word),
    decreases word.len(),
{
    let init = word.drop_last();
    let c = word.last();
    lemma_read_concat(r, escape_each(init), escape_char(c));
    if init.len() == 0 {
        assert(escape_each(init) =~= Seq::<char>::empty());
        lemma_read_escape_char(r, c);
        assert(r.text().push(c) =~= r.text() + word);
    } else {
        lemma_read_escape_each(r, init);
        lemma_read_escape_char(r.extend(init), c);
        assert((r.text() + init).push(c) =~= r.text() + word);
    }
}

/// Outside quoting, the quoted form of `word` adds `word` to the word being
/// read; if `word` is empty, a word begins all the same.
pub proof fn lemma_read_escape(r: Reader, word: Seq<char>)
    requires
        r.mode is Plain,
    ensures
        r.read(escape_spec(word)) == r.extend(word),
{
    if word.len() == 0 {
        let q = seq!['\''];
        assert(escape_spec(word) =~= q + q);
        lemma_read_concat(r, q, q);
        lemma_read_one(r, '\'');
        lemma_read_one(r.step('\''), '\'');
        assert(r.text() + word =~= r.text() + Seq::<char>::empty());
    } else {
        lemma_read_escape_each(r, word);
    }
}

/// Between two commands or words, the quoted forms of `words`, joined by
/// spaces, leave the reader inside the last word, with the others finished
/// in order.
pub proof fn lemma_read_join(r: Reader, words: Seq<Seq<char>>)
    requires
        r.mode is Plain,
        r.word is None,
        words.len() > 0,
    ensures
        r.read(join_spec(words)) == (Reader {
            done: r.done + word_tokens(words.drop_last()),
            word: Some(words.last()),
            mode: Mode::Plain,
        }),
    decreases words.len(),
{
    let quoted = words.map_values(|w: Seq<char>| escape_spec(w));
    let init = words.drop_last();
    let last = words.last();
    let empty = Seq::<char>::empty();
    if words.len() == 1 {
        assert(join_spec(words) == escape_spec(last));
        lemma_read_escape(r, last);
        assert(empty + last =~= last);
        assert(r.done + word_tokens(init) =~= r.done);
    } else {
        assert(quoted.drop_last() =~= init.map_values(|w: Seq<char>| escape_spec(w)));
        let head = join_spec(init);
        let sp = seq![' '];
        assert(join_spec(words) == head + sp + escape_spec(last));
        lemma_read_concat(r, head + sp, escape_spec(last));
        lemma_read_concat(r, head, sp);
        lemma_read_join(r, init);
        let r1 = r.read(head);
        lemma_read_one(r1, ' ');
        let r2 = r1.step(' ');
        lemma_read_escape(r2, last);
        assert(empty + last =~= last);
        assert(r2.done =~= r.done + word_tokens(init)) by {
            assert(word_tokens(init) =~= word_tokens(init.drop_last()).push(
                Token::Word(init.last()),
            ));
        }
    }
}

/// Quoting round-trip: a shell reads the quoted form of any word as exactly
/// that one word.
pub proof fn lemma_escape_round_trip(word: Seq<char>)
    ensures
        tokens(escape_spec(word)) == Some(seq![Token::Word(word)]),
{
    let r = Reader::start();
    lemma_read_escape(r, word);
    assert(Seq::<char>::empty() + word =~= word);
    assert(r.extend(word).end_word().done =~= seq![Token::Word(word)]);
}

/// Quoting keeps words apart: if a shell reads the quoted forms of two words
/// alike, the words are the same.
pub proof fn lemma_escape_injective(a: Seq<char>, b: Seq<char>)
    requires
        tokens(escape_spec(a)) == tokens(escape_spec(b)),
    ensures
        a == b,
{
    lemma_escape_round_trip(a);
    lemma_escape_round_trip(b);
    assert(seq![Token::Word(a)][0] == seq![Token::Word(b)][0]);
}

/// Joining round-trip: a shell reads the joined quoted forms of any list of
/// words as exactly those words, in order.
pub proof fn lemma_join_round_trip(words: Seq<Seq<char>>)
    ensures
        tokens(join_spec(words)) == Some(word_tokens(words)),
{
    let r = Reader::start();
    if words.len() == 0 {
        assert(join_spec(words) =~= Seq::<char>::empty());
        assert(r.end_word().done =~= word_tokens(words));
    } else {
        lemma_read_join(r, words);
        assert(word_tokens(words) =~= (r.done + word_tokens(words.drop_last())).push(
            Token::Word(words.last()),
        ));
    }
}

/// Joining two words: a shell reads the result as those two words.
pub proof fn lemma_join_pair_round_trip(a: Seq<char>, b: Seq<char>)
    ensures
        tokens(join_spec(seq![a, b])) == Some(seq![Token::Word(a), Token::Word(b)]),
{
    lemma_join_round_trip(seq![a, b]);
    assert(word_tokens(seq![a, b]) =~= seq![Token::Word(a), Token::Word(b)]);
}

} // verus!
