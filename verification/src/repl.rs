//! Running programs: the global environment, running source text, the
//! bracket balance check, and the decisions of the interactive loop.

use vstd::prelude::*;
use crate::builtins::builtin_names;
use crate::env::{Env, SEnv, define, empty_env, lookup};
use crate::error::{Error, SError, error_text};
use crate::eval::{eval_body, rv, sem_begin_from};
use crate::lexer::{lex, tokenize};
use crate::reader::{parse_all, parse_all_from};
use crate::text::{char_is_whitespace, chars_of, is_whitespace_spec, push_chars, push_str, string_from_str, string_of};
use crate::value::{SValue, Value, show, write_value};

verus! {

/// The depth budget of one top-level evaluation: a procedure call nests about
/// three levels, so recursion about 33,000 calls deep still completes. Each
/// level holds a few evaluator stack frames (well under a kilobyte together),
/// which the 512 MB stack the terminal program runs the interpreter on holds
/// many times over.
pub const EVAL_DEPTH: u64 = 100000;

// ---------------------------------------------------------------- global environment

/// `env` with `names[i..]` bound in frame 0, each to the builtin of that name.
pub open spec fn define_builtins(env: SEnv, names: Seq<Seq<char>>, i: nat) -> SEnv
    decreases names.len() - i,
{
    if i >= names.len() {
        env
    } else {
        define_builtins(define(env, 0, names[i as int], SValue::Builtin(names[i as int])), names, i + 1)
    }
}

/// The global environment: frame 0 binds every builtin name to its builtin.
pub open spec fn global_env() -> SEnv {
    define_builtins(empty_env(), builtin_names(), 0)
}

proof fn lemma_define_builtins(env: SEnv, names: Seq<Seq<char>>, i: nat, n: Seq<char>)
    requires
        env.frames.len() > 0,
        i <= names.len(),
    ensures
        lookup(define_builtins(env, names, i), 0, n) == (if names.subrange(i as int, names.len() as int).contains(n) {
            Some(SValue::Builtin(n))
        } else {
            lookup(env, 0, n)
        }),
    decreases names.len() - i,
{
    let rest = names.subrange(i as int, names.len() as int);
    if i < names.len() {
        let m = names[i as int];
        let e1 = define(env, 0, m, SValue::Builtin(m));
        lemma_define_builtins(e1, names, i + 1, n);
        let rest1 = names.subrange(i as int + 1, names.len() as int);
        assert(rest =~= seq![m] + rest1);
        assert(rest[0] == m);
        if m == n {
            crate::laws::law_define_then_lookup(env, 0, m, SValue::Builtin(m));
        } else {
            crate::laws::law_define_other_name(env, 0, m, SValue::Builtin(m), 0, n);
            assert(rest.contains(n) ==> rest1.contains(n)) by {
                if rest.contains(n) {
                    let k = choose|k: int| 0 <= k < rest.len() && rest[k] == n;
                    assert(k > 0);
                    assert(rest1[k - 1] == n);
                }
            }
            assert(rest1.contains(n) ==> rest.contains(n)) by {
                if rest1.contains(n) {
                    let k = choose|k: int| 0 <= k < rest1.len() && rest1[k] == n;
                    assert(rest[k + 1] == n);
                }
            }
        }
    } else {
        assert(!rest.contains(n));
    }
}

/// The global frame binds exactly the builtin names, each to the builtin of
/// that name.
pub proof fn law_global_env_builtins(n: Seq<char>)
    ensures
        lookup(global_env(), 0, n) == (if builtin_names().contains(n) { Some(SValue::Builtin(n)) } else { None }),
{
    let names = builtin_names();
    lemma_define_builtins(empty_env(), names, 0, n);
    assert(names.subrange(0, names.len() as int) =~= names);
    assert(crate::env::find_from(empty_env().frames[0].vars, n, 0) is None);
}

/// A fresh interpreter whose global frame (index 0) binds the builtins.
pub fn make_global_env() -> (r: Env)
    ensures
        r@ == global_env(),
{
    let names: [&str; 30] = [
        "+", "-", "*", "/",
        "=", "<", ">", "<=", ">=",
        "car", "cdr", "cons", "list",
        "null?", "pair?", "number?", "string?",
        "boolean?", "symbol?", "procedure?",
        "eq?", "equal?", "not",
        "display", "newline",
        "list?", "length", "append", "map", "apply",
    ];
    let ghost spec_names = builtin_names();
    assert(names@.len() == 30);
    assert forall|k: int| 0 <= k < 30 implies #[trigger] names@[k]@ == spec_names[k] by {
        reveal_strlit("+");
        reveal_strlit("-");
        reveal_strlit("*");
        reveal_strlit("/");
        reveal_strlit("=");
        reveal_strlit("<");
        reveal_strlit(">");
        reveal_strlit("<=");
        reveal_strlit(">=");
        reveal_strlit("car");
        reveal_strlit("cdr");
        reveal_strlit("cons");
        reveal_strlit("list");
        reveal_strlit("null?");
        reveal_strlit("pair?");
        reveal_strlit("number?");
        reveal_strlit("string?");
        reveal_strlit("boolean?");
        reveal_strlit("symbol?");
        reveal_strlit("procedure?");
        reveal_strlit("eq?");
        reveal_strlit("equal?");
        reveal_strlit("not");
        reveal_strlit("display");
        reveal_strlit("newline");
        reveal_strlit("list?");
        reveal_strlit("length");
        reveal_strlit("append");
        reveal_strlit("map");
        reveal_strlit("apply");
    }
    let mut env = Env::new();
    let mut i: usize = 0;
    while i < 30
        invariant
            i <= 30,
            spec_names == builtin_names(),
            forall|k: int| 0 <= k < 30 ==> #[trigger] names@[k]@ == spec_names[k],
            global_env() == define_builtins(env@, spec_names, i as nat),
        decreases 30 - i,
    {
        let name = string_from_str(names[i]);
        let val = Value::BuiltinFunc(string_from_str(names[i]));
        env.define(0, name, val);
        i = i + 1;
    }
    env
}

// ---------------------------------------------------------------- running

/// Running `input` in the global frame of `env`: lexing, reading, then
/// evaluating each datum in order; the value of the last (`()` if none).
pub open spec fn sem_run(input: Seq<char>, env: SEnv) -> (Result<SValue, SError>, SEnv) {
    match lex(input) {
        Err(e) => (Err(e), env),
        Ok(ts) => match parse_all_from(ts, 0, seq![]) {
            Err(e) => (Err(e), env),
            Ok(exprs) => sem_begin_from(EVAL_DEPTH as nat, exprs, 0, 0, env, SValue::Nil),
        },
    }
}

/// Runs `input` in the global frame of `env`.
pub fn run(input: &str, env: &mut Env) -> (r: Result<Value, Error>)
    ensures
        (rv(r), final(env)@) == sem_run(input@, old(env)@),
{
    let tokens = tokenize(input)?;
    let exprs = parse_all(tokens.as_slice())?;
    eval_body(exprs.as_slice(), 0, 0, env, EVAL_DEPTH)
}

/// The printed value of `input` run in a fresh global environment, or the
/// message of the error it stops on.
pub fn eval_to_string(input: &str) -> (r: Result<String, String>)
    ensures
        match sem_run(input@, global_env()).0 {
            Ok(v) => r matches Ok(s) && s@ == show(v),
            Err(e) => r matches Err(m) && m@ == error_text(e),
        },
{
    let mut env = make_global_env();
    match run(input, &mut env) {
        Ok(v) => Ok(v.to_text()),
        Err(e) => Err(e.message()),
    }
}

// ---------------------------------------------------------------- balance

/// Scanning `s` from `i` on: the parenthesis depth outside string literals,
/// and whether the scan ends inside a string literal (`escape`: the previous
/// character was a backslash inside a string).
pub open spec fn balance_scan(s: Seq<char>, i: nat, depth: int, in_string: bool, escape: bool) -> (int, bool)
    decreases s.len() - i,
{
    if i >= s.len() {
        (depth, in_string)
    } else {
        let c = s[i as int];
        if escape {
            balance_scan(s, i + 1, depth, in_string, false)
        } else if c == '\\' && in_string {
            balance_scan(s, i + 1, depth, in_string, true)
        } else if c == '"' {
            balance_scan(s, i + 1, depth, !in_string, false)
        } else if in_string {
            balance_scan(s, i + 1, depth, in_string, false)
        } else if c == '(' {
            balance_scan(s, i + 1, depth + 1, in_string, false)
        } else if c == ')' {
            balance_scan(s, i + 1, depth - 1, in_string, false)
        } else {
            balance_scan(s, i + 1, depth, in_string, false)
        }
    }
}

/// Whether `s` has as many `(` as `)` outside string literals and does not
/// end inside a string literal.
pub open spec fn balanced(s: Seq<char>) -> bool {
    let r = balance_scan(s, 0, 0, false, false);
    r.0 == 0 && !r.1
}

/// The full state after scanning `s` from `i` on: the depth, whether the scan
/// is inside a string literal, and whether a backslash is pending.
pub open spec fn scan_state(s: Seq<char>, i: nat, depth: int, in_string: bool, escape: bool) -> (int, bool, bool)
    decreases s.len() - i,
{
    if i >= s.len() {
        (depth, in_string, escape)
    } else {
        let c = s[i as int];
        if escape {
            scan_state(s, i + 1, depth, in_string, false)
        } else if c == '\\' && in_string {
            scan_state(s, i + 1, depth, in_string, true)
        } else if c == '"' {
            scan_state(s, i + 1, depth, !in_string, false)
        } else if in_string {
            scan_state(s, i + 1, depth, in_string, false)
        } else if c == '(' {
            scan_state(s, i + 1, depth + 1, in_string, false)
        } else if c == ')' {
            scan_state(s, i + 1, depth - 1, in_string, false)
        } else {
            scan_state(s, i + 1, depth, in_string, false)
        }
    }
}

proof fn lemma_scan_state(s: Seq<char>, i: nat, depth: int, in_string: bool, escape: bool)
    requires
        escape ==> in_string,
    ensures
        ({
            let st = scan_state(s, i, depth, in_string, escape);
            &&& balance_scan(s, i, depth, in_string, escape) == (st.0, st.1)
            &&& (st.2 ==> st.1)
        }),
    decreases s.len() - i,
{
    if i < s.len() {
        let c = s[i as int];
        if escape {
            lemma_scan_state(s, i + 1, depth, in_string, false);
        } else if c == '\\' && in_string {
            lemma_scan_state(s, i + 1, depth, in_string, true);
        } else if c == '"' {
            lemma_scan_state(s, i + 1, depth, !in_string, false);
        } else if in_string {
            lemma_scan_state(s, i + 1, depth, in_string, false);
        } else if c == '(' {
            lemma_scan_state(s, i + 1, depth + 1, in_string, false);
        } else if c == ')' {
            lemma_scan_state(s, i + 1, depth - 1, in_string, false);
        } else {
            lemma_scan_state(s, i + 1, depth, in_string, false);
        }
    }
}

proof fn lemma_scan_shift(a: Seq<char>, b: Seq<char>, j: nat, depth: int, in_string: bool, escape: bool)
    ensures
        balance_scan(a + b, a.len() + j, depth, in_string, escape) == balance_scan(b, j, depth, in_string, escape),
    decreases b.len() - j,
{
    if j < b.len() {
        assert((a + b)[a.len() + j as int] == b[j as int]);
        lemma_scan_shift(a, b, j + 1, depth, in_string, false);
        lemma_scan_shift(a, b, j + 1, depth, in_string, true);
        lemma_scan_shift(a, b, j + 1, depth, !in_string, false);
        lemma_scan_shift(a, b, j + 1, depth + 1, in_string, false);
        lemma_scan_shift(a, b, j + 1, depth - 1, in_string, false);
    }
}

proof fn lemma_scan_concat(a: Seq<char>, b: Seq<char>, i: nat, depth: int, in_string: bool, escape: bool)
    requires
        i <= a.len(),
    ensures
        ({
            let st = scan_state(a, i, depth, in_string, escape);
            balance_scan(a + b, i, depth, in_string, escape) == balance_scan(b, 0, st.0, st.1, st.2)
        }),
    decreases a.len() - i,
{
    if i == a.len() {
        lemma_scan_shift(a, b, 0, depth, in_string, escape);
    } else {
        assert((a + b)[i as int] == a[i as int]);
        lemma_scan_concat(a, b, i + 1, depth, in_string, false);
        lemma_scan_concat(a, b, i + 1, depth, in_string, true);
        lemma_scan_concat(a, b, i + 1, depth, !in_string, false);
        lemma_scan_concat(a, b, i + 1, depth + 1, in_string, false);
        lemma_scan_concat(a, b, i + 1, depth - 1, in_string, false);
    }
}

/// A balanced text leaves no parenthesis, string or escape open, so what
/// follows it is checked as if on its own: `a + b` is balanced exactly when
/// `b` is, for every balanced `a`.
pub proof fn law_balanced_concat(a: Seq<char>, b: Seq<char>)
    requires
        balanced(a),
    ensures
        balanced(a + b) == balanced(b),
{
    lemma_scan_state(a, 0, 0, false, false);
    lemma_scan_concat(a, b, 0, 0, false, false);
}

/// Whether `input` is complete enough to run: its parentheses outside
/// strings balance and it does not end inside a string.
pub fn is_balanced(input: &str) -> (r: bool)
    ensures
        r == balanced(input@),
{
    let cs = chars_of(input);
    let ghost s = cs@;
    let mut depth: i128 = 0;
    let mut in_string = false;
    let mut escape = false;
    let mut i: usize = 0;
    while i < cs.len()
        invariant
            s == cs@,
            s == input@,
            i <= s.len(),
            -(i as int) <= depth <= i as int,
            balance_scan(s, 0, 0, false, false) == balance_scan(s, i as nat, depth as int, in_string, escape),
        decreases s.len() - i,
    {
        let ch = cs[i];
        if escape {
            escape = false;
        } else if ch == '\\' && in_string {
            escape = true;
        } else if ch == '"' {
            in_string = !in_string;
        } else if in_string {
        } else if ch == '(' {
            depth = depth + 1;
        } else if ch == ')' {
            depth = depth - 1;
        }
        i = i + 1;
    }
    depth == 0 && !in_string
}

// ---------------------------------------------------------------- trimming

/// `s` without leading whitespace.
pub open spec fn trim_start(s: Seq<char>) -> Seq<char>
    decreases s.len(),
{
    if s.len() > 0 && is_whitespace_spec(s[0]) { trim_start(s.drop_first()) } else { s }
}

/// `s` without trailing whitespace.
pub open spec fn trim_end(s: Seq<char>) -> Seq<char>
    decreases s.len(),
{
    if s.len() > 0 && is_whitespace_spec(s.last()) { trim_end(s.drop_last()) } else { s }
}

/// `s` without leading and trailing whitespace.
pub open spec fn trim(s: Seq<char>) -> Seq<char> {
    trim_end(trim_start(s))
}

/// `s` without leading and trailing whitespace.
pub fn trim_chars(s: &[char]) -> (r: Vec<char>)
    ensures
        r@ == trim(s@),
{
    let mut a: usize = 0;
    assert(s@.subrange(0, s@.len() as int) =~= s@);
    while a < s.len() && char_is_whitespace(s[a])
        invariant
            a <= s@.len(),
            trim_start(s@) == trim_start(s@.subrange(a as int, s@.len() as int)),
        decreases s@.len() - a,
    {
        assert(s@.subrange(a as int, s@.len() as int).drop_first() =~= s@.subrange(a + 1, s@.len() as int));
        a = a + 1;
    }
    assert(trim_start(s@.subrange(a as int, s@.len() as int)) == s@.subrange(a as int, s@.len() as int));
    let mut b: usize = s.len();
    while b > a && char_is_whitespace(s[b - 1])
        invariant
            a <= b <= s@.len(),
            trim_start(s@) == s@.subrange(a as int, s@.len() as int),
            trim(s@) == trim_end(s@.subrange(a as int, b as int)),
        decreases b,
    {
        assert(s@.subrange(a as int, b as int).drop_last() =~= s@.subrange(a as int, b - 1));
        b = b - 1;
    }
    let mut out: Vec<char> = Vec::new();
    push_chars(&mut out, &s[a..b]);
    assert(out@ =~= s@.subrange(a as int, b as int));
    out
}

// ---------------------------------------------------------------- the interactive loop

/// The model of the interactive loop's state: the text read but not yet run,
/// and the interpreter.
pub struct SRepl {
    pub buffer: Seq<char>,
    pub env: SEnv,
}

/// What the interactive loop does after a line is fed to it.
pub enum ReplStep {
    /// The input asked to leave.
    Exit,
    /// Nothing to show; read another line.
    Continue,
    /// Show this text (output written by the program, then the result or the
    /// error), then read another line.
    Output(String),
}

/// The model of a [`ReplStep`].
pub enum SReplStep {
    Exit,
    Continue,
    Output(Seq<char>),
}

impl View for ReplStep {
    type V = SReplStep;

    open spec fn view(&self) -> SReplStep {
        match self {
            ReplStep::Exit => SReplStep::Exit,
            ReplStep::Continue => SReplStep::Continue,
            ReplStep::Output(s) => SReplStep::Output(s@),
        }
    }
}

/// The interactive loop's state: pending input and the interpreter.
pub struct Repl {
    buffer: Vec<char>,
    env: Env,
}

impl View for Repl {
    type V = SRepl;

    closed spec fn view(&self) -> SRepl {
        SRepl { buffer: self.buffer@, env: self.env@ }
    }
}

/// The text shown after running a complete input: the program's output, then
/// the value unless it is `()`, or `Error: ` and the message.
pub open spec fn report(output: Seq<char>, r: Result<SValue, SError>) -> Seq<char> {
    output + match r {
        Ok(v) => if v == SValue::Nil { Seq::<char>::empty() } else { show(v) + seq!['\n'] },
        Err(e) => "Error: "@ + error_text(e) + seq!['\n'],
    }
}

/// Feeding one line (with its line end) to the interactive loop: the line is
/// added to the pending input; `(exit)` ends the loop; incomplete input waits
/// for more; otherwise the trimmed input is run and the report shown.
pub open spec fn repl_feed(st: SRepl, line: Seq<char>) -> (SRepl, SReplStep) {
    let buf = st.buffer + line;
    if trim(buf) == "(exit)"@ {
        (SRepl { buffer: buf, env: st.env }, SReplStep::Exit)
    } else if !balanced(buf) {
        (SRepl { buffer: buf, env: st.env }, SReplStep::Continue)
    } else if trim(buf).len() == 0 {
        (SRepl { buffer: seq![], env: st.env }, SReplStep::Continue)
    } else {
        let p = sem_run(trim(buf), st.env);
        (
            SRepl { buffer: seq![], env: SEnv { frames: p.1.frames, output: seq![] } },
            SReplStep::Output(report(p.1.output, p.0)),
        )
    }
}

/// The prompt shown before reading a line.
pub open spec fn prompt_text(st: SRepl) -> Seq<char> {
    if st.buffer.len() == 0 { "mini> "@ } else { "...   "@ }
}

impl Repl {
    /// A loop with no pending input and a fresh global environment.
    pub fn new() -> (r: Repl)
        ensures
            r@ == (SRepl { buffer: seq![], env: global_env() }),
    {
        let r = Repl { buffer: Vec::new(), env: make_global_env() };
        assert(r@.buffer =~= seq![]);
        r
    }

    /// The prompt for the next line: `mini> `, or `...   ` while input is pending.
    pub fn prompt(&self) -> (r: &'static str)
        ensures
            r@ == prompt_text(self@),
    {
        if self.buffer.len() == 0 { "mini> " } else { "...   " }
    }

    /// Feeds one line, with its line end, to the loop.
    pub fn feed(&mut self, line: &str) -> (r: ReplStep)
        ensures
            (final(self)@, r@) == repl_feed(old(self)@, line@),
    {
        let cs = chars_of(line);
        push_chars(&mut self.buffer, cs.as_slice());
        let trimmed = trim_chars(self.buffer.as_slice());
        let t = string_of(trimmed.as_slice());
        if crate::text::text_is(&t, "(exit)") {
            return ReplStep::Exit;
        }
        let whole = string_of(self.buffer.as_slice());
        if !is_balanced(whole.as_str()) {
            return ReplStep::Continue;
        }
        self.buffer = Vec::new();
        assert(self@.buffer =~= seq![]);
        if trimmed.len() == 0 {
            return ReplStep::Continue;
        }
        let ghost buf = old(self)@.buffer + line@;
        assert(t@ == trim(buf));
        let result = run(t.as_str(), &mut self.env);
        let ghost p = sem_run(trim(buf), old(self)@.env);
        assert(p == (rv(result), self.env@));
        let out = self.env.take_output();
        let mut text: Vec<char> = Vec::new();
        let oc = chars_of(out.as_str());
        push_chars(&mut text, oc.as_slice());
        assert(text@ == p.1.output);
        match &result {
            Ok(v) => {
                match v {
                    Value::Nil => {
                        assert(text@ =~= report(p.1.output, p.0));
                    },
                    _ => {
                        assert(v@ != SValue::Nil);
                        write_value(v, &mut text);
                        text.push('\n');
                        assert(text@ =~= report(p.1.output, p.0));
                    },
                }
            },
            Err(e) => {
                push_str(&mut text, "Error: ");
                let m = e.message();
                let mc = chars_of(m.as_str());
                push_chars(&mut text, mc.as_slice());
                text.push('\n');
                assert(text@ =~= report(p.1.output, p.0));
            },
        }
        ReplStep::Output(string_of(text.as_slice()))
    }
}

/// Input spread over lines is run as if it had come in one piece: when a
/// line leaves the pending input incomplete (and is not `(exit)`), the loop
/// shows nothing, keeps the interpreter as it was, prompts with `...   `, and
/// feeding the next line then does what feeding both lines at once does.
pub proof fn law_repl_lines_join(st: SRepl, l1: Seq<char>, l2: Seq<char>)
    requires
        !balanced(st.buffer + l1),
        trim(st.buffer + l1) != "(exit)"@,
    ensures
        repl_feed(st, l1) == (SRepl { buffer: st.buffer + l1, env: st.env }, SReplStep::Continue),
        prompt_text(repl_feed(st, l1).0) == "...   "@,
        repl_feed(repl_feed(st, l1).0, l2) == repl_feed(st, l1 + l2),
{
    assert(st.buffer + l1 + l2 =~= st.buffer + (l1 + l2));
    if st.buffer + l1 == Seq::<char>::empty() {
        assert(balance_scan(st.buffer + l1, 0, 0, false, false) == (0int, false));
    }
}

/// After a complete input has run, nothing is pending, the prompt is
/// `mini> `, and the text shown is the program's output followed by the
/// value's printed form and a line break (nothing for `()`), or by `Error: `,
/// the message and a line break.
pub proof fn law_repl_runs_complete_input(st: SRepl, line: Seq<char>)
    requires
        balanced(st.buffer + line),
        trim(st.buffer + line) != "(exit)"@,
        trim(st.buffer + line).len() > 0,
    ensures
        ({
            let p = sem_run(trim(st.buffer + line), st.env);
            let r = repl_feed(st, line);
            &&& r.0.buffer.len() == 0
            &&& prompt_text(r.0) == "mini> "@
            &&& r.0.env.frames == p.1.frames
            &&& r.1 == SReplStep::Output(p.1.output + match p.0 {
                Ok(v) => if v == SValue::Nil { seq![] } else { show(v) + seq!['\n'] },
                Err(e) => "Error: "@ + error_text(e) + seq!['\n'],
            })
        }),
{
}

} // verus!
