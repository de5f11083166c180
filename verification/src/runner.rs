//! Command execution: how a command line is run (directly or through a shell),
//! how its words are quoted for the shell, and how its output is cleaned up.
use std::borrow::Cow;

use vstd::prelude::*;

use crate::config::CommandMode;
use crate::text::{
    chars_of, copy_strings, is_ascii_alphabetic, is_ascii_alphanumeric, is_control,
    is_whitespace, push_char, seq_join, spec_is_ascii_alphabetic, spec_is_ascii_alphanumeric,
    spec_is_control, spec_is_whitespace,
};

verus! {

/// Result of running a command
#[derive(Debug, Clone)]
pub struct CommandResult {
    /// Standard output
    pub stdout: String,
    /// Standard error
    pub stderr: String,
    /// Exit code (None if killed by signal)
    pub exit_code: Option<i32>,
    /// Whether the command succeeded (exit code 0)
    pub success: bool,
}

/// The combined output: stdout alone if stderr is empty, stderr alone if stdout is
/// empty, else stdout, a newline and stderr.
pub open spec fn spec_combined_output(stdout: Seq<char>, stderr: Seq<char>) -> Seq<char> {
    if stderr.len() == 0 {
        stdout
    } else if stdout.len() == 0 {
        stderr
    } else {
        stdout + seq!['\n'] + stderr
    }
}

impl CommandResult {
    /// The result of a finished command from its captured output and exit code (none
    /// when a signal ended it): it succeeded exactly when the exit code is 0.
    pub fn from_capture(stdout: String, stderr: String, exit_code: Option<i32>) -> (r:
        CommandResult)
        ensures
            r.stdout == stdout,
            r.stderr == stderr,
            r.exit_code == exit_code,
            r.success == (exit_code == Some(0i32)),
    {
        let success = match exit_code {
            Some(code) => code == 0,
            None => false,
        };
        CommandResult { stdout, stderr, exit_code, success }
    }

    /// Get the combined output (stdout + stderr). It borrows when one of the two is empty.
    pub fn combined_output(&self) -> (r: Cow<'_, str>)
        ensures
            r@ == spec_combined_output(self.stdout@, self.stderr@),
            self.stderr@.len() == 0 ==> r matches Cow::Borrowed(_),
            self.stderr@.len() != 0 && self.stdout@.len() == 0 ==> r matches Cow::Borrowed(_),
            self.stderr@.len() != 0 && self.stdout@.len() != 0 ==> r matches Cow::Owned(_),
    {
        if self.stderr.as_str().is_empty() {
            Cow::Borrowed(self.stdout.as_str())
        } else if self.stdout.as_str().is_empty() {
            Cow::Borrowed(self.stderr.as_str())
        } else {
            let mut combined = self.stdout.clone();
            push_char(&mut combined, '\n');
            combined.append(self.stderr.as_str());
            Cow::Owned(combined)
        }
    }
}

// ---------------------------------------------------------------------------
// Deciding between direct execution and a shell.
// ---------------------------------------------------------------------------

/// The argument is a shell operator on its own: `|`, `||`, `&&`, `;`, `<`, `>`, `>>`,
/// `2>`, `2>>`, `2>&1`, `(` or `)`.
pub open spec fn spec_is_shell_operator(arg: Seq<char>) -> bool {
    ||| arg == seq!['|']
    ||| arg == seq!['|', '|']
    ||| arg == seq!['&', '&']
    ||| arg == seq![';']
    ||| arg == seq!['<']
    ||| arg == seq!['>']
    ||| arg == seq!['>', '>']
    ||| arg == seq!['2', '>']
    ||| arg == seq!['2', '>', '>']
    ||| arg == seq!['2', '>', '&', '1']
    ||| arg == seq!['(']
    ||| arg == seq![')']
}

/// A character that may stand in an environment variable name: ASCII alphanumeric or '_'.
pub open spec fn is_name_char(c: char) -> bool {
    spec_is_ascii_alphanumeric(c) || c == '_'
}

/// The argument reads `NAME=value`: split at its first '=', the name is non-empty and made
/// of name characters, and the value is non-empty.
pub open spec fn spec_looks_like_env_assignment(arg: Seq<char>) -> bool {
    exists|i: int|
        0 < i < arg.len() - 1 && #[trigger] arg[i] == '=' && forall|j: int|
            0 <= j < i ==> is_name_char(#[trigger] arg[j])
}

/// Auto mode runs the command through a shell: it is a single argument (likely a shell
/// command line), or one of its arguments is a shell operator or an assignment.
pub open spec fn spec_should_use_shell(command: Seq<Seq<char>>) -> bool {
    if command.len() == 0 {
        false
    } else if command.len() == 1 {
        true
    } else {
        exists|i: int|
            0 <= i < command.len() && (spec_is_shell_operator(#[trigger] command[i])
                || spec_looks_like_env_assignment(command[i]))
    }
}

pub fn is_shell_operator(arg: &str) -> (r: bool)
    ensures
        r == spec_is_shell_operator(arg@),
{
    let v = chars_of(arg);
    let n = v.len();
    if n == 1 {
        let a = v[0];
        assert(v@ == seq![a]);
        a == '|' || a == ';' || a == '<' || a == '>' || a == '(' || a == ')'
    } else if n == 2 {
        let a = v[0];
        let b = v[1];
        assert(v@ == seq![a, b]);
        (a == '|' && b == '|') || (a == '&' && b == '&') || (a == '>' && b == '>') || (a == '2'
            && b == '>')
    } else if n == 3 {
        let a = v[0];
        let b = v[1];
        let c = v[2];
        assert(v@ == seq![a, b, c]);
        a == '2' && b == '>' && c == '>'
    } else if n == 4 {
        let a = v[0];
        let b = v[1];
        let c = v[2];
        let d = v[3];
        assert(v@ == seq![a, b, c, d]);
        a == '2' && b == '>' && c == '&' && d == '1'
    } else {
        false
    }
}

pub fn looks_like_env_assignment(arg: &str) -> (r: bool)
    ensures
        r == spec_looks_like_env_assignment(arg@),
{
    let v = chars_of(arg);
    // Find the first '=' while checking that everything before it is a name character.
    let mut i: usize = 0;
    while i < v.len() && v[i] != '='
        invariant
            i <= v.len(),
            v@ == arg@,
            forall|k: int| 0 <= k < i ==> v@[k] != '=',
        decreases v.len() - i,
    {
        i = i + 1;
    }
    if i == v.len() {
        // No '=': not an assignment.
        assert(!spec_looks_like_env_assignment(arg@)) by {
            if spec_looks_like_env_assignment(arg@) {
                let w = choose|w: int|
                    0 < w < arg@.len() - 1 && #[trigger] arg@[w] == '=' && forall|j: int|
                        0 <= j < w ==> is_name_char(#[trigger] arg@[j]);
                assert(v@[w] != '=');
            }
        }
        return false;
    }
    let mut name_ok = true;
    let mut k: usize = 0;
    while k < i
        invariant
            k <= i,
            i < v.len(),
            v@ == arg@,
            name_ok == (forall|j: int| 0 <= j < k ==> is_name_char(#[trigger] v@[j])),
        decreases i - k,
    {
        let c = v[k];
        if !(is_ascii_alphanumeric(c) || c == '_') {
            name_ok = false;
        }
        k = k + 1;
    }
    let r = i > 0 && i + 1 < v.len() && name_ok;
    assert(r == spec_looks_like_env_assignment(arg@)) by {
        if spec_looks_like_env_assignment(arg@) {
            let w = choose|w: int|
                0 < w < arg@.len() - 1 && #[trigger] arg@[w] == '=' && forall|j: int|
                    0 <= j < w ==> is_name_char(#[trigger] arg@[j]);
            if (i as int) < w {
                assert(is_name_char(v@[i as int]));
            } else if w < (i as int) {
                assert(v@[w] != '=');
            }
        }
        if r {
            assert(0 < i < arg@.len() - 1 && arg@[i as int] == '=');
        }
    }
    r
}

/// Auto mode's choice: whether the command goes through a shell.
pub fn should_use_shell(command: &[String]) -> (r: bool)
    ensures
        r == spec_should_use_shell(command.deep_view()),
{
    if command.len() == 0 {
        return false;
    }
    // A single argument frequently means the user intentionally passed a shell command
    // (e.g. "echo $HOME | sed ...") and expects shell features.
    if command.len() == 1 {
        return true;
    }
    let mut i: usize = 0;
    while i < command.len()
        invariant
            i <= command.len(),
            command.len() > 1,
            forall|k: int|
                0 <= k < i ==> !(spec_is_shell_operator(#[trigger] command.deep_view()[k])
                    || spec_looks_like_env_assignment(command.deep_view()[k])),
        decreases command.len() - i,
    {
        let arg = command[i].as_str();
        if is_shell_operator(arg) || looks_like_env_assignment(arg) {
            assert(spec_is_shell_operator(command.deep_view()[i as int])
                || spec_looks_like_env_assignment(command.deep_view()[i as int]));
            return true;
        }
        i = i + 1;
    }
    false
}

// ---------------------------------------------------------------------------
// Quoting for the shell.
// ---------------------------------------------------------------------------

/// Which shell the command line is written for.
#[derive(Debug, Clone, Copy, PartialEq, Eq, Structural)]
pub enum ShellSyntax {
    /// A POSIX shell (`$SHELL -c`)
    Posix,
    /// The Windows command interpreter (`%COMSPEC% /C`)
    Cmd,
}

/// What a character becomes inside POSIX single quotes: a quote closes the quoting,
/// is written in double quotes, and the quoting reopens.
pub open spec fn posix_char(c: char) -> Seq<char> {
    if c == '\'' {
        seq!['\'', '"', '\'', '"', '\'']
    } else {
        seq![c]
    }
}

/// An argument quoted for a POSIX shell: `''` when empty, else the argument in single
/// quotes with each single quote written as `'"'"'`.
pub open spec fn spec_quote_for_posix_sh(arg: Seq<char>) -> Seq<char> {
    if arg.len() == 0 {
        seq!['\'', '\'']
    } else {
        seq!['\''] + arg.flat_map(|c: char| posix_char(c)) + seq!['\'']
    }
}

/// What a character becomes for cmd.exe: `^ & | < > ( )` get a `^` before them, `%`
/// is doubled, `!` becomes `^!` and `"` becomes `\"`.
pub open spec fn cmd_char(c: char) -> Seq<char> {
    if c == '^' || c == '&' || c == '|' || c == '<' || c == '>' || c == '(' || c == ')' {
        seq!['^', c]
    } else if c == '%' {
        seq!['%', '%']
    } else if c == '!' {
        seq!['^', '!']
    } else if c == '"' {
        seq!['\\', '"']
    } else {
        seq![c]
    }
}

/// An argument quoted for cmd.exe: `""` when empty, else the escaped argument, in double
/// quotes where the argument holds whitespace.
pub open spec fn spec_quote_for_cmd(arg: Seq<char>) -> Seq<char> {
    if arg.len() == 0 {
        seq!['"', '"']
    } else {
        let escaped = arg.flat_map(|c: char| cmd_char(c));
        if exists|i: int| 0 <= i < arg.len() && spec_is_whitespace(#[trigger] arg[i]) {
            seq!['"'] + escaped + seq!['"']
        } else {
            escaped
        }
    }
}

pub open spec fn spec_quote(arg: Seq<char>, syntax: ShellSyntax) -> Seq<char> {
    match syntax {
        ShellSyntax::Posix => spec_quote_for_posix_sh(arg),
        ShellSyntax::Cmd => spec_quote_for_cmd(arg),
    }
}

/// The command line handed to the shell: a single argument as it is, else each argument
/// quoted and the quoted words joined by spaces.
pub open spec fn spec_build_shell_command(command: Seq<Seq<char>>, syntax: ShellSyntax) -> Seq<
    char,
> {
    if command.len() == 1 {
        command[0]
    } else {
        seq_join(command.map_values(|a: Seq<char>| spec_quote(a, syntax)), seq![' '])
    }
}

proof fn lemma_flat_map_step(s: Seq<char>, f: spec_fn(char) -> Seq<char>, i: int)
    requires
        0 <= i < s.len(),
    ensures
        s.take(i + 1).flat_map(f) == s.take(i).flat_map(f) + f(s[i]),
{
    assert(s.take(i + 1) == s.take(i).push(s[i]));
    s.take(i).lemma_flat_map_push(f, s[i]);
}

/// Quote an argument for a POSIX shell.
pub fn quote_for_posix_sh(arg: &str) -> (r: String)
    ensures
        r@ == spec_quote_for_posix_sh(arg@),
{
    let v = chars_of(arg);
    let mut r = String::new();
    push_char(&mut r, '\'');
    if v.len() == 0 {
        push_char(&mut r, '\'');
        assert(r@ =~= seq!['\'', '\'']);
        return r;
    }
    let ghost f = |c: char| posix_char(c);
    let mut i: usize = 0;
    while i < v.len()
        invariant
            i <= v.len(),
            v@ == arg@,
            f == (|c: char| posix_char(c)),
            r@ == seq!['\''] + v@.take(i as int).flat_map(f),
        decreases v.len() - i,
    {
        let c = v[i];
        proof {
            lemma_flat_map_step(v@, f, i as int);
        }
        if c == '\'' {
            push_char(&mut r, '\'');
            push_char(&mut r, '"');
            push_char(&mut r, '\'');
            push_char(&mut r, '"');
            push_char(&mut r, '\'');
        } else {
            push_char(&mut r, c);
        }
        i = i + 1;
        assert(r@ =~= seq!['\''] + v@.take(i as int).flat_map(f));
    }
    push_char(&mut r, '\'');
    assert(v@.take(v.len() as int) == v@);
    assert(r@ =~= spec_quote_for_posix_sh(arg@));
    r
}

/// Quote an argument for cmd.exe.
pub fn quote_for_cmd(arg: &str) -> (r: String)
    ensures
        r@ == spec_quote_for_cmd(arg@),
{
    let v = chars_of(arg);
    let mut r = String::new();
    if v.len() == 0 {
        push_char(&mut r, '"');
        push_char(&mut r, '"');
        assert(r@ =~= seq!['"', '"']);
        return r;
    }
    let ghost f = |c: char| cmd_char(c);
    let mut escaped = String::new();
    let mut needs_quotes = false;
    let mut i: usize = 0;
    while i < v.len()
        invariant
            i <= v.len(),
            v@ == arg@,
            f == (|c: char| cmd_char(c)),
            escaped@ == v@.take(i as int).flat_map(f),
            needs_quotes == exists|k: int| 0 <= k < i && spec_is_whitespace(#[trigger] v@[k]),
        decreases v.len() - i,
    {
        let c = v[i];
        proof {
            lemma_flat_map_step(v@, f, i as int);
        }
        if c == '^' || c == '&' || c == '|' || c == '<' || c == '>' || c == '(' || c == ')' {
            push_char(&mut escaped, '^');
            push_char(&mut escaped, c);
        } else if c == '%' {
            push_char(&mut escaped, '%');
            push_char(&mut escaped, '%');
        } else if c == '!' {
            push_char(&mut escaped, '^');
            push_char(&mut escaped, '!');
        } else if c == '"' {
            push_char(&mut escaped, '\\');
            push_char(&mut escaped, '"');
        } else {
            push_char(&mut escaped, c);
        }
        if is_whitespace(c) {
            needs_quotes = true;
        }
        i = i + 1;
        assert(escaped@ =~= v@.take(i as int).flat_map(f));
    }
    assert(v@.take(v.len() as int) == v@);
    if needs_quotes {
        push_char(&mut r, '"');
        r.append(escaped.as_str());
        push_char(&mut r, '"');
        assert(r@ =~= spec_quote_for_cmd(arg@));
        r
    } else {
        escaped
    }
}

fn quote(arg: &str, syntax: ShellSyntax) -> (r: String)
    ensures
        r@ == spec_quote(arg@, syntax),
{
    match syntax {
        ShellSyntax::Posix => quote_for_posix_sh(arg),
        ShellSyntax::Cmd => quote_for_cmd(arg),
    }
}

/// The command line to hand to the shell.
pub fn build_shell_command(command: &[String], syntax: ShellSyntax) -> (r: String)
    ensures
        r@ == spec_build_shell_command(command.deep_view(), syntax),
{
    if command.len() == 1 {
        return command[0].clone();
    }
    let ghost words = command.deep_view().map_values(|a: Seq<char>| spec_quote(a, syntax));
    let mut r = String::new();
    let mut i: usize = 0;
    while i < command.len()
        invariant
            i <= command.len(),
            words == command.deep_view().map_values(|a: Seq<char>| spec_quote(a, syntax)),
            r@ == seq_join(words.take(i as int), seq![' ']),
        decreases command.len() - i,
    {
        assert(words.take(i + 1).drop_last() == words.take(i as int));
        if i > 0 {
            push_char(&mut r, ' ');
        }
        let w = quote(command[i].as_str(), syntax);
        r.append(w.as_str());
        i = i + 1;
    }
    assert(words.take(command.len() as int) == words);
    r
}

// ---------------------------------------------------------------------------
// How a POSIX shell reads back what is quoted for it.
// ---------------------------------------------------------------------------

/// Where a POSIX shell is while reading a command line: outside quotes, inside single
/// quotes, or inside double quotes.
pub enum ShQuote {
    Outside,
    Single,
    Double,
}

/// A POSIX shell partway through splitting a command line into words: the quoting it is
/// in, the words finished, the word being read, and whether a word has started.
pub struct ShReader {
    pub quote: ShQuote,
    pub words: Seq<Seq<char>>,
    pub cur: Seq<char>,
    pub started: bool,
}

pub open spec fn sh_start() -> ShReader {
    ShReader { quote: ShQuote::Outside, words: Seq::empty(), cur: Seq::empty(), started: false }
}

/// One character of the command line as a POSIX shell reads it, for the characters
/// whose meaning is modelled: outside quotes a space ends a word and quotes open
/// quoting; inside single quotes everything but the closing quote is literal; inside
/// double quotes everything but the closing quote and `$`, `` ` ``, `\` is literal.
/// Anything else (`None`) is left unmodelled.
pub open spec fn sh_step(r: Option<ShReader>, c: char) -> Option<ShReader> {
    match r {
        None => None,
        Some(r) => match r.quote {
            ShQuote::Outside => if c == ' ' {
                if r.started {
                    Some(
                        ShReader {
                            quote: ShQuote::Outside,
                            words: r.words.push(r.cur),
                            cur: Seq::empty(),
                            started: false,
                        },
                    )
                } else {
                    Some(r)
                }
            } else if c == '\'' {
                Some(ShReader { quote: ShQuote::Single, words: r.words, cur: r.cur, started: true })
            } else if c == '"' {
                Some(ShReader { quote: ShQuote::Double, words: r.words, cur: r.cur, started: true })
            } else {
                None
            },
            ShQuote::Single => if c == '\'' {
                Some(ShReader { quote: ShQuote::Outside, words: r.words, cur: r.cur, started: true })
            } else {
                Some(
                    ShReader {
                        quote: ShQuote::Single,
                        words: r.words,
                        cur: r.cur.push(c),
                        started: true,
                    },
                )
            },
            ShQuote::Double => if c == '"' {
                Some(ShReader { quote: ShQuote::Outside, words: r.words, cur: r.cur, started: true })
            } else if c == '$' || c == '`' || c == '\\' {
                None
            } else {
                Some(
                    ShReader {
                        quote: ShQuote::Double,
                        words: r.words,
                        cur: r.cur.push(c),
                        started: true,
                    },
                )
            },
        },
    }
}

/// The reader after `s`.
pub open spec fn sh_scan(r: Option<ShReader>, s: Seq<char>) -> Option<ShReader>
    decreases s.len(),
{
    if s.len() == 0 {
        r
    } else {
        sh_step(sh_scan(r, s.drop_last()), s.last())
    }
}

/// The words a POSIX shell reads from the command line `s`, where all its characters are
/// modelled and its quotes are closed.
pub open spec fn sh_words(s: Seq<char>) -> Option<Seq<Seq<char>>> {
    match sh_scan(Some(sh_start()), s) {
        Some(r) => match r.quote {
            ShQuote::Outside => Some(
                if r.started {
                    r.words.push(r.cur)
                } else {
                    r.words
                },
            ),
            _ => None,
        },
        None => None,
    }
}

proof fn lemma_sh_scan_concat(r: Option<ShReader>, x: Seq<char>, y: Seq<char>)
    ensures
        sh_scan(r, x + y) == sh_scan(sh_scan(r, x), y),
    decreases y.len(),
{
    if y.len() == 0 {
        assert(x + y == x);
    } else {
        assert((x + y).drop_last() == x + y.drop_last());
        assert((x + y).last() == y.last());
        lemma_sh_scan_concat(r, x, y.drop_last());
    }
}

proof fn lemma_sh_scan_one(r: Option<ShReader>, c: char)
    ensures
        sh_scan(r, seq![c]) == sh_step(r, c),
{
    assert(seq![c].drop_last() == Seq::<char>::empty());
    assert(seq![c].last() == c);
    assert(sh_scan(r, Seq::<char>::empty()) == r);
}

/// Inside single quotes, a character as `posix_char` writes it adds that character.
proof fn lemma_sh_scan_posix_char(words: Seq<Seq<char>>, cur: Seq<char>, c: char)
    ensures
        sh_scan(
            Some(ShReader { quote: ShQuote::Single, words, cur, started: true }),
            posix_char(c),
        ) == Some(ShReader { quote: ShQuote::Single, words, cur: cur.push(c), started: true }),
{
    let st = Some(ShReader { quote: ShQuote::Single, words, cur, started: true });
    if c == '\'' {
        let q = seq!['\'', '"', '\'', '"', '\''];
        assert(q == seq!['\''] + seq!['"'] + seq!['\''] + seq!['"'] + seq!['\'']);
        lemma_sh_scan_concat(st, seq!['\''] + seq!['"'] + seq!['\''] + seq!['"'], seq!['\'']);
        lemma_sh_scan_concat(st, seq!['\''] + seq!['"'] + seq!['\''], seq!['"']);
        lemma_sh_scan_concat(st, seq!['\''] + seq!['"'], seq!['\'']);
        lemma_sh_scan_concat(st, seq!['\''], seq!['"']);
        let s1 = sh_scan(st, seq!['\'']);
        lemma_sh_scan_one(st, '\'');
        let s2 = sh_scan(s1, seq!['"']);
        lemma_sh_scan_one(s1, '"');
        let s3 = sh_scan(s2, seq!['\'']);
        lemma_sh_scan_one(s2, '\'');
        let s4 = sh_scan(s3, seq!['"']);
        lemma_sh_scan_one(s3, '"');
        lemma_sh_scan_one(s4, '\'');
    } else {
        lemma_sh_scan_one(st, c);
    }
}

/// Inside the opening quote, the first `i` characters of `a` as quoted read back as
/// themselves.
proof fn lemma_sh_scan_quoted_prefix(words: Seq<Seq<char>>, a: Seq<char>, i: int)
    requires
        0 <= i <= a.len(),
    ensures
        sh_scan(
            Some(ShReader { quote: ShQuote::Outside, words, cur: Seq::empty(), started: false }),
            seq!['\''] + a.take(i).flat_map(|c: char| posix_char(c)),
        ) == Some(ShReader { quote: ShQuote::Single, words, cur: a.take(i), started: true }),
    decreases i,
{
    let st = Some(ShReader { quote: ShQuote::Outside, words, cur: Seq::empty(), started: false });
    let f = |c: char| posix_char(c);
    if i == 0 {
        assert(a.take(0) =~= Seq::<char>::empty());
        assert(a.take(0).flat_map(f) =~= Seq::<char>::empty());
        assert(seq!['\''] + a.take(0).flat_map(f) =~= seq!['\'']);
        lemma_sh_scan_one(st, '\'');
    } else {
        lemma_sh_scan_quoted_prefix(words, a, i - 1);
        lemma_flat_map_step(a, f, i - 1);
        let x = seq!['\''] + a.take(i - 1).flat_map(f);
        assert(seq!['\''] + a.take(i).flat_map(f) =~= x + posix_char(a[i - 1]));
        lemma_sh_scan_concat(st, x, posix_char(a[i - 1]));
        lemma_sh_scan_posix_char(words, a.take(i - 1), a[i - 1]);
        assert(a.take(i - 1).push(a[i - 1]) =~= a.take(i));
    }
}

/// Reading an argument quoted for a POSIX shell, from outside quotes between words,
/// gives back the argument as the word being read.
proof fn lemma_sh_scan_quoted(words: Seq<Seq<char>>, a: Seq<char>)
    ensures
        sh_scan(
            Some(ShReader { quote: ShQuote::Outside, words, cur: Seq::empty(), started: false }),
            spec_quote_for_posix_sh(a),
        ) == Some(ShReader { quote: ShQuote::Outside, words, cur: a, started: true }),
{
    let st = Some(ShReader { quote: ShQuote::Outside, words, cur: Seq::empty(), started: false });
    let f = |c: char| posix_char(c);
    if a.len() == 0 {
        assert(spec_quote_for_posix_sh(a) == seq!['\''] + seq!['\'']);
        lemma_sh_scan_concat(st, seq!['\''], seq!['\'']);
        lemma_sh_scan_one(st, '\'');
        lemma_sh_scan_one(sh_scan(st, seq!['\'']), '\'');
        assert(a =~= Seq::<char>::empty());
    } else {
        lemma_sh_scan_quoted_prefix(words, a, a.len() as int);
        assert(a.take(a.len() as int) == a);
        let x = seq!['\''] + a.flat_map(f);
        assert(spec_quote_for_posix_sh(a) == x + seq!['\'']);
        lemma_sh_scan_concat(st, x, seq!['\'']);
        lemma_sh_scan_one(sh_scan(st, x), '\'');
    }
}

/// A POSIX shell reads an argument quoted by `quote_for_posix_sh` back as that same
/// argument, as one word.
pub proof fn law_posix_quote_reads_back(arg: Seq<char>)
    ensures
        sh_words(spec_quote_for_posix_sh(arg)) == Some(seq![arg]),
{
    lemma_sh_scan_quoted(Seq::empty(), arg);
    assert(Seq::<Seq<char>>::empty().push(arg) =~= seq![arg]);
}

/// Reading the first `i` quoted words joined by spaces leaves the first `i - 1` words
/// finished and the `i`-th one being read.
proof fn lemma_sh_scan_join(command: Seq<Seq<char>>, i: int)
    requires
        1 <= i <= command.len(),
    ensures
        sh_scan(
            Some(sh_start()),
            seq_join(
                command.map_values(|a: Seq<char>| spec_quote(a, ShellSyntax::Posix)).take(i),
                seq![' '],
            ),
        ) == Some(
            ShReader {
                quote: ShQuote::Outside,
                words: command.take(i - 1),
                cur: command[i - 1],
                started: true,
            },
        ),
    decreases i,
{
    let q = command.map_values(|a: Seq<char>| spec_quote(a, ShellSyntax::Posix));
    let st = Some(sh_start());
    if i == 1 {
        assert(q.take(1).len() == 1);
        assert(seq_join(q.take(1), seq![' ']) == q[0]);
        lemma_sh_scan_quoted(Seq::empty(), command[0]);
        assert(command.take(0) =~= Seq::<Seq<char>>::empty());
    } else {
        lemma_sh_scan_join(command, i - 1);
        let prev = seq_join(q.take(i - 1), seq![' ']);
        assert(q.take(i).drop_last() == q.take(i - 1));
        assert(q.take(i).last() == q[i - 1]);
        assert(seq_join(q.take(i), seq![' ']) == prev + seq![' '] + q[i - 1]);
        lemma_sh_scan_concat(st, prev + seq![' '], q[i - 1]);
        lemma_sh_scan_concat(st, prev, seq![' ']);
        lemma_sh_scan_one(sh_scan(st, prev), ' ');
        assert(command.take(i - 2).push(command[i - 2]) =~= command.take(i - 1));
        lemma_sh_scan_quoted(command.take(i - 1), command[i - 1]);
    }
}

/// A POSIX shell splits the command line that `build_shell_command` makes of two or more
/// arguments (or of none) back into exactly those arguments.
pub proof fn law_shell_command_reads_back(command: Seq<Seq<char>>)
    requires
        command.len() != 1,
    ensures
        sh_words(spec_build_shell_command(command, ShellSyntax::Posix)) == Some(command),
{
    let q = command.map_values(|a: Seq<char>| spec_quote(a, ShellSyntax::Posix));
    if command.len() == 0 {
        assert(q.len() == 0);
        assert(seq_join(q, seq![' ']) == Seq::<char>::empty());
        assert(command =~= Seq::<Seq<char>>::empty());
    } else {
        lemma_sh_scan_join(command, command.len() as int);
        assert(q.take(command.len() as int) == q);
        assert(command.take(command.len() - 1).push(command[command.len() - 1]) =~= command);
    }
}

// ---------------------------------------------------------------------------
// Runner.
// ---------------------------------------------------------------------------

/// Why a command cannot be run.
#[derive(Debug, Clone, Copy, PartialEq, Eq, Structural)]
pub enum RunError {
    /// The command line is empty.
    NoCommand,
}

/// A program to start and the arguments to give it.
#[derive(Debug)]
pub struct Invocation {
    pub program: String,
    pub args: Vec<String>,
    /// The command goes through the shell (the last argument is the shell command line).
    pub via_shell: bool,
}

/// The command goes through the shell under this mode.
pub open spec fn spec_uses_shell(mode: CommandMode, command: Seq<Seq<char>>) -> bool {
    match mode {
        CommandMode::Exec => false,
        CommandMode::Shell => true,
        CommandMode::Auto => spec_should_use_shell(command),
    }
}

/// The switch that makes the shell run a command line: `-c`, or `/C` for cmd.exe.
pub open spec fn shell_switch(syntax: ShellSyntax) -> Seq<char> {
    match syntax {
        ShellSyntax::Posix => seq!['-', 'c'],
        ShellSyntax::Cmd => seq!['/', 'C'],
    }
}

/// Command runner that handles platform differences
pub struct Runner {
    /// Command execution strategy
    pub mode: CommandMode,
}

impl Runner {
    /// Create a new runner
    pub fn new(mode: CommandMode) -> (r: Runner)
        ensures
            r.mode == mode,
    {
        Runner { mode }
    }

    /// What to start for `command`: the shell program `shell` with the switch and the
    /// shell command line, or the command's first word with the rest as its arguments.
    /// An empty command is refused.
    pub fn invocation(&self, command: &[String], shell: &str, syntax: ShellSyntax) -> (r: Result<
        Invocation,
        RunError,
    >)
        ensures
            command@.len() == 0 <==> r is Err,
            r matches Ok(inv) ==> inv.via_shell == spec_uses_shell(self.mode, command.deep_view()),
            r matches Ok(inv) ==> if spec_uses_shell(self.mode, command.deep_view()) {
                &&& inv.program@ == shell@
                &&& inv.args.deep_view() == seq![
                    shell_switch(syntax),
                    spec_build_shell_command(command.deep_view(), syntax),
                ]
            } else {
                &&& inv.program@ == command.deep_view()[0]
                &&& inv.args.deep_view() == command.deep_view().skip(1)
            },
    {
        if command.len() == 0 {
            return Err(RunError::NoCommand);
        }
        let use_shell = match self.mode {
            CommandMode::Exec => false,
            CommandMode::Shell => true,
            CommandMode::Auto => should_use_shell(command),
        };
        if use_shell {
            let line = build_shell_command(command, syntax);
            let switch = match syntax {
                ShellSyntax::Posix => {
                    let mut s = String::new();
                    push_char(&mut s, '-');
                    push_char(&mut s, 'c');
                    assert(s@ =~= shell_switch(syntax));
                    s
                },
                ShellSyntax::Cmd => {
                    let mut s = String::new();
                    push_char(&mut s, '/');
                    push_char(&mut s, 'C');
                    assert(s@ =~= shell_switch(syntax));
                    s
                },
            };
            let ghost sw = switch@;
            let ghost ln = line@;
            let mut args: Vec<String> = Vec::new();
            args.push(switch);
            args.push(line);
            assert(args.deep_view() =~= seq![sw, ln]);
            assert(args.deep_view() =~= seq![
                shell_switch(syntax),
                spec_build_shell_command(command.deep_view(), syntax),
            ]);
            Ok(Invocation { program: shell.to_owned(), args, via_shell: true })
        } else {
            let program = command[0].clone();
            let (_, rest) = command.split_at(1);
            let args = copy_strings(rest);
            assert(rest.deep_view() =~= command.deep_view().skip(1));
            Ok(Invocation { program, args, via_shell: false })
        }
    }
}

// ---------------------------------------------------------------------------
// Cleaning up the output.
// ---------------------------------------------------------------------------

/// A control character that is removed: any but newline, carriage return and tab.
pub open spec fn is_removed_control(c: char) -> bool {
    spec_is_control(c) && c != '\n' && c != '\r' && c != '\t'
}

/// One step of the scan: given the text kept so far and whether an escape sequence is
/// open, read `c`. An escape sequence starts at ESC and ends with the first ASCII letter
/// after it; it is kept whole when `preserve_ansi`, else dropped whole. Outside escape
/// sequences, control characters other than '\n', '\r' and '\t' are dropped.
pub open spec fn strip_step(kept: Seq<char>, in_escape: bool, c: char, preserve_ansi: bool) -> (
    Seq<char>,
    bool,
) {
    if in_escape {
        (if preserve_ansi {
            kept.push(c)
        } else {
            kept
        }, !spec_is_ascii_alphabetic(c))
    } else if c == '\u{1b}' {
        (if preserve_ansi {
            kept.push(c)
        } else {
            kept
        }, true)
    } else if is_removed_control(c) {
        (kept, false)
    } else {
        (kept.push(c), false)
    }
}

/// The scan of `s` from the left: the text kept and whether an escape sequence is open.
pub open spec fn strip_scan(s: Seq<char>, preserve_ansi: bool) -> (Seq<char>, bool)
    decreases s.len(),
{
    if s.len() == 0 {
        (Seq::empty(), false)
    } else {
        let (kept, esc) = strip_scan(s.drop_last(), preserve_ansi);
        strip_step(kept, esc, s.last(), preserve_ansi)
    }
}

pub open spec fn spec_strip_non_printable(s: Seq<char>, preserve_ansi: bool) -> Seq<char> {
    strip_scan(s, preserve_ansi).0
}

/// Strip non-printable characters from output; ANSI escape sequences are kept when
/// `preserve_ansi`, else removed.
pub fn strip_non_printable(s: &str, preserve_ansi: bool) -> (r: String)
    ensures
        r@ == spec_strip_non_printable(s@, preserve_ansi),
{
    let v = chars_of(s);
    let mut result = String::new();
    let mut in_escape = false;
    let mut i: usize = 0;
    while i < v.len()
        invariant
            i <= v.len(),
            v@ == s@,
            (result@, in_escape) == strip_scan(v@.take(i as int), preserve_ansi),
        decreases v.len() - i,
    {
        let c = v[i];
        assert(v@.take(i + 1).drop_last() == v@.take(i as int));
        if in_escape {
            if preserve_ansi {
                push_char(&mut result, c);
            }
            in_escape = !is_ascii_alphabetic(c);
        } else if c == '\u{1b}' {
            // Start of an ANSI escape sequence
            if preserve_ansi {
                push_char(&mut result, c);
            }
            in_escape = true;
        } else if is_control(c) && c != '\n' && c != '\r' && c != '\t' {
            // Skip non-printable control characters
        } else {
            push_char(&mut result, c);
        }
        i = i + 1;
    }
    assert(v@.take(v.len() as int) == v@);
    result
}


/// Text with no ESC and no control character that is removed.
pub open spec fn is_clean(t: Seq<char>) -> bool {
    forall|i: int| 0 <= i < t.len() ==> #[trigger] t[i] != '\u{1b}' && !is_removed_control(t[i])
}

proof fn lemma_strip_removing_is_clean(s: Seq<char>)
    ensures
        is_clean(strip_scan(s, false).0),
    decreases s.len(),
{
    if s.len() > 0 {
        lemma_strip_removing_is_clean(s.drop_last());
    }
}

proof fn lemma_strip_clean_unchanged(t: Seq<char>, preserve_ansi: bool)
    requires
        is_clean(t),
    ensures
        strip_scan(t, preserve_ansi) == (t, false),
    decreases t.len(),
{
    if t.len() > 0 {
        assert(is_clean(t.drop_last()));
        lemma_strip_clean_unchanged(t.drop_last(), preserve_ansi);
        assert(t.drop_last().push(t.last()) == t);
    }
}

proof fn lemma_strip_preserving_rescan(s: Seq<char>)
    ensures
        strip_scan(strip_scan(s, true).0, true) == strip_scan(s, true),
    decreases s.len(),
{
    if s.len() > 0 {
        lemma_strip_preserving_rescan(s.drop_last());
        let (kept, esc) = strip_scan(s.drop_last(), true);
        let c = s.last();
        if kept.push(c).len() > 0 {
            assert(kept.push(c).drop_last() == kept);
        }
    }
}

/// Removing escape sequences leaves no ESC and no control character other than '\n',
/// '\r' and '\t'.
pub proof fn law_strip_removes_all_escapes(s: Seq<char>)
    ensures
        is_clean(spec_strip_non_printable(s, false)),
{
    lemma_strip_removing_is_clean(s);
}

/// Text with no ESC and no control character other than '\n', '\r' and '\t' passes
/// through unchanged, whether escape sequences are kept or not.
pub proof fn law_strip_keeps_plain_text(s: Seq<char>, preserve_ansi: bool)
    requires
        is_clean(s),
    ensures
        spec_strip_non_printable(s, preserve_ansi) == s,
{
    lemma_strip_clean_unchanged(s, preserve_ansi);
}

/// Stripping twice is stripping once, in either mode.
pub proof fn law_strip_idempotent(s: Seq<char>, preserve_ansi: bool)
    ensures
        spec_strip_non_printable(spec_strip_non_printable(s, preserve_ansi), preserve_ansi)
            == spec_strip_non_printable(s, preserve_ansi),
{
    if preserve_ansi {
        lemma_strip_preserving_rescan(s);
    } else {
        lemma_strip_removing_is_clean(s);
        lemma_strip_clean_unchanged(strip_scan(s, false).0, false);
    }
}


proof fn lemma_strip_push(x: Seq<char>, c: char, preserve_ansi: bool)
    ensures
        strip_scan(x.push(c), preserve_ansi) == strip_step(
            strip_scan(x, preserve_ansi).0,
            strip_scan(x, preserve_ansi).1,
            c,
            preserve_ansi,
        ),
{
    assert(x.push(c).drop_last() == x);
}

proof fn lemma_strip_escape_body(x: Seq<char>, kept: Seq<char>, p: Seq<char>, i: int)
    requires
        strip_scan(x, false) == (kept, true),
        0 <= i <= p.len(),
        forall|j: int| 0 <= j < p.len() ==> !(('A' <= #[trigger] p[j] && p[j] <= 'Z') || ('a'
            <= p[j] && p[j] <= 'z')),
    ensures
        strip_scan(x + p.take(i), false) == (kept, true),
    decreases i,
{
    if i == 0 {
        assert(x + p.take(0) == x);
    } else {
        lemma_strip_escape_body(x, kept, p, i - 1);
        assert(x + p.take(i) == (x + p.take(i - 1)).push(p[i - 1]));
        lemma_strip_push(x + p.take(i - 1), p[i - 1], false);
    }
}

proof fn lemma_strip_clean_tail(x: Seq<char>, kept: Seq<char>, t: Seq<char>, j: int)
    requires
        strip_scan(x, false) == (kept, false),
        0 <= j <= t.len(),
        is_clean(t),
    ensures
        strip_scan(x + t.take(j), false) == (kept + t.take(j), false),
    decreases j,
{
    if j == 0 {
        assert(x + t.take(0) == x);
        assert(kept + t.take(0) == kept);
    } else {
        lemma_strip_clean_tail(x, kept, t, j - 1);
        assert(x + t.take(j) == (x + t.take(j - 1)).push(t[j - 1]));
        lemma_strip_push(x + t.take(j - 1), t[j - 1], false);
        assert(kept + t.take(j) == (kept + t.take(j - 1)).push(t[j - 1]));
    }
}

/// Without `--color`, an escape sequence runs from ESC to the first ASCII letter after it,
/// upper or lower case, and is removed whole: clean text `u`, then ESC, then characters
/// that are not ASCII letters, then one ASCII letter, then clean text `t`, gives `u + t`.
pub proof fn law_escape_sequence_ends_at_first_letter(
    u: Seq<char>,
    p: Seq<char>,
    letter: char,
    t: Seq<char>,
)
    requires
        is_clean(u),
        is_clean(t),
        forall|j: int| 0 <= j < p.len() ==> !(('A' <= #[trigger] p[j] && p[j] <= 'Z') || ('a'
            <= p[j] && p[j] <= 'z')),
        ('A' <= letter && letter <= 'Z') || ('a' <= letter && letter <= 'z'),
    ensures
        spec_strip_non_printable(u + seq!['\u{1b}'] + p + seq![letter] + t, false) == u + t,
{
    lemma_strip_clean_unchanged(u, false);
    let x1 = u.push('\u{1b}');
    lemma_strip_push(u, '\u{1b}', false);
    lemma_strip_escape_body(x1, u, p, p.len() as int);
    assert(p.take(p.len() as int) == p);
    let x2 = x1 + p;
    lemma_strip_push(x2, letter, false);
    let x3 = x2.push(letter);
    lemma_strip_clean_tail(x3, u, t, t.len() as int);
    assert(t.take(t.len() as int) == t);
    assert(u + seq!['\u{1b}'] + p + seq![letter] + t == x3 + t);
}

// ---------------------------------------------------------------------------
// How cmd.exe reads a caret-escaped argument.
// ---------------------------------------------------------------------------

/// One of the characters that cmd.exe treats as an operator or escape: `^ & | < > ( )`.
pub open spec fn is_cmd_special(c: char) -> bool {
    c == '^' || c == '&' || c == '|' || c == '<' || c == '>' || c == '(' || c == ')'
}

/// cmd.exe's caret layer read from the left: the text so far and whether a caret is
/// pending. A caret makes the next character literal; an unescaped `& | < > ( )` is an
/// operator (redirection, pipe, command separator or grouping), for which there is no
/// argument text (`None`).
pub open spec fn cmd_caret_scan(s: Seq<char>) -> Option<(Seq<char>, bool)>
    decreases s.len(),
{
    if s.len() == 0 {
        Some((Seq::empty(), false))
    } else {
        match cmd_caret_scan(s.drop_last()) {
            None => None,
            Some((out, escaped)) => {
                let c = s.last();
                if escaped {
                    Some((out.push(c), false))
                } else if c == '^' {
                    Some((out, true))
                } else if is_cmd_special(c) {
                    None
                } else {
                    Some((out.push(c), false))
                }
            },
        }
    }
}

/// The text cmd.exe passes on for `s`, where it holds no active operator and ends with
/// no caret pending.
pub open spec fn cmd_reads_as(s: Seq<char>) -> Option<Seq<char>> {
    match cmd_caret_scan(s) {
        Some((out, false)) => Some(out),
        _ => None,
    }
}

proof fn lemma_cmd_scan_quoted_prefix(a: Seq<char>, i: int)
    requires
        0 <= i <= a.len(),
        forall|j: int|
            0 <= j < a.len() ==> #[trigger] a[j] != '%' && a[j] != '"' && !spec_is_whitespace(
                a[j],
            ),
    ensures
        cmd_caret_scan(a.take(i).flat_map(|c: char| cmd_char(c))) == Some((a.take(i), false)),
    decreases i,
{
    let f = |c: char| cmd_char(c);
    if i == 0 {
        assert(a.take(0) =~= Seq::<char>::empty());
        assert(a.take(0).flat_map(f) =~= Seq::<char>::empty());
    } else {
        lemma_cmd_scan_quoted_prefix(a, i - 1);
        lemma_flat_map_step(a, f, i - 1);
        let x = a.take(i - 1).flat_map(f);
        let c = a[i - 1];
        assert(a.take(i - 1).push(c) =~= a.take(i));
        if is_cmd_special(c) || c == '!' {
            assert(cmd_char(c) == seq!['^', c]);
            assert(x + seq!['^', c] == x.push('^').push(c));
            assert(x.push('^').push(c).drop_last() == x.push('^'));
            assert(x.push('^').drop_last() == x);
            assert(cmd_caret_scan(x.push('^')) == Some((a.take(i - 1), true)));
            assert(cmd_caret_scan(x.push('^').push(c)) == Some((a.take(i - 1).push(c), false)));
        } else {
            assert(cmd_char(c) == seq![c]);
            assert(x + seq![c] == x.push(c));
            assert(x.push(c).drop_last() == x);
            assert(cmd_caret_scan(x.push(c)) == Some((a.take(i - 1).push(c), false)));
        }
    }
}

/// cmd.exe reads an argument quoted by `quote_for_cmd` back as the argument itself: each of
/// `^ & | < > ( )` (and `!`) in it is escaped by a caret, so no redirection, pipe or
/// grouping stays active. This covers non-empty arguments without whitespace, `%` or `"`,
/// whose quoting is caret escaping alone.
pub proof fn law_cmd_quote_reads_back(a: Seq<char>)
    requires
        a.len() > 0,
        forall|j: int|
            0 <= j < a.len() ==> #[trigger] a[j] != '%' && a[j] != '"' && !spec_is_whitespace(
                a[j],
            ),
    ensures
        cmd_reads_as(spec_quote_for_cmd(a)) == Some(a),
{
    lemma_cmd_scan_quoted_prefix(a, a.len() as int);
    assert(a.take(a.len() as int) == a);
    assert(!exists|i: int| 0 <= i < a.len() && spec_is_whitespace(#[trigger] a[i]));
}

} // verus!
