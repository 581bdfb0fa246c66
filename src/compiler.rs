use vstd::prelude::*;
use crate::error::{Error, ErrorType};
use crate::scope::Scope;
use crate::statement::{give_prefix, let_prefix, let_suffix, say_prefix, Statement};
use crate::text::{lines_of, trim, trimmed, views};

verus! {

/// One compiled operation. `T` is the type of the expression lexer's tokens.
#[derive(Debug, PartialEq, Eq)]
pub enum Instruction<T> {
    /// Print the value of an expression.
    Put(Vec<T>),
    /// Declare a variable, with no value.
    Let(String),
    /// Give a variable the value of an expression.
    SetVar(String, Vec<T>),
    /// The end of the program.
    End(),
}

/// What one line of source asks for.
pub enum Work {
    /// Nothing: the line is empty once trimmed.
    Blank,
    /// The line has no statement's shape.
    Illegal,
    /// Print the expression.
    Print(Seq<char>),
    /// Declare the name.
    Declare(Seq<char>),
    /// Assign the expression to the name.
    Assign(Seq<char>, Seq<char>),
}

/// Whether `k` is the position of the first space in `r`.
pub open spec fn is_first_space(r: Seq<char>, k: int) -> bool {
    0 <= k < r.len() && r[k] == ' ' && forall|j: int| 0 <= j < k ==> r[j] != ' '
}

/// What a trimmed, non-empty line asks for.
pub open spec fn parsed(t: Seq<char>) -> Work {
    match Statement::classify(t) {
        None => Work::Illegal,
        Some(Statement::Say) => Work::Print(t.skip(say_prefix().len() as int)),
        Some(Statement::Let) => Work::Declare(
            t.subrange(let_prefix().len() as int, t.len() - let_suffix().len()),
        ),
        Some(Statement::Assign) => {
            let r = t.skip(give_prefix().len() as int);
            if exists|k: int| is_first_space(r, k) {
                let k = choose|k: int| is_first_space(r, k);
                Work::Assign(trimmed(r.take(k)), r.skip(k + 1))
            } else {
                Work::Illegal
            }
        },
    }
}

/// What a line of source asks for.
pub open spec fn work_of(line: Seq<char>) -> Work {
    let t = trimmed(line);
    if t.len() == 0 {
        Work::Blank
    } else {
        parsed(t)
    }
}

/// A line's statement, as strings.
#[derive(Debug, PartialEq, Eq)]
pub enum Parsed {
    Print(String),
    Declare(String),
    Assign(String, String),
}

impl Parsed {
    pub open spec fn work(self) -> Work {
        match self {
            Parsed::Print(e) => Work::Print(e@),
            Parsed::Declare(n) => Work::Declare(n@),
            Parsed::Assign(n, e) => Work::Assign(n@, e@),
        }
    }
}

/// The position of the first space in `s`, if there is one.
fn find_space(s: &str) -> (r: Option<usize>)
    ensures
        match r {
            Some(k) => is_first_space(s@, k as int),
            None => forall|k: int| !is_first_space(s@, k),
        },
{
    let n = s.unicode_len();
    let mut i: usize = 0;
    while i < n
        invariant
            n == s@.len(),
            i <= n,
            forall|j: int| 0 <= j < i ==> s@[j] != ' ',
        decreases n - i,
    {
        if s.get_char(i) == ' ' {
            return Some(i);
        }
        i = i + 1;
    }
    None
}

/// Reads a trimmed, non-empty line: `None` where it has no statement's shape.
pub fn parse_line(t: &String) -> (r: Option<Parsed>)
    ensures
        match r {
            Some(p) => p.work() == parsed(t@),
            None => parsed(t@) is Illegal,
        },
{
    let s = t.as_str();
    let n = s.unicode_len();
    match Statement::match_statement(t) {
        None => None,
        Some(Statement::Say) => {
            let pn = "Never gonna say ".unicode_len();
            Some(Parsed::Print(String::from_str(s.substring_char(pn, n))))
        },
        Some(Statement::Let) => {
            let pn = "Never gonna let ".unicode_len();
            let qn = " down".unicode_len();
            Some(Parsed::Declare(String::from_str(s.substring_char(pn, n - qn))))
        },
        Some(Statement::Assign) => {
            let pn = "Never gonna give ".unicode_len();
            let slice = s.substring_char(pn, n);
            let m = slice.unicode_len();
            match find_space(slice) {
                Some(k) => {
                    let name = trim(slice.substring_char(0, k));
                    let expr = String::from_str(slice.substring_char(k + 1, m));
                    proof {
                        let r = t@.skip(give_prefix().len() as int);
                        assert(slice@ == r);
                        assert forall|k2: int| is_first_space(r, k2) implies k2 == k by {
                            if k2 < k {
                                assert(r[k2] != ' ');
                            }
                            if k2 > k {
                                assert(r[k as int] != ' ');
                            }
                        }
                        assert(is_first_space(r, k as int));
                    }
                    Some(Parsed::Assign(name, expr))
                },
                None => None,
            }
        },
    }
}

/// A line that compiles to an instruction: its number, its work, and the
/// names declared before it.
pub struct Pending {
    pub line: nat,
    pub work: Work,
    pub scope: Set<Seq<char>>,
}

/// The failure that stops compilation before any expression is lexed.
pub struct Stop {
    pub kind: ErrorType,
    pub message: Seq<char>,
    pub line: nat,
}

/// What the text alone decides: the lines that become instructions, the
/// names declared, and the first syntax or name failure, if any.
pub struct Plan {
    pub steps: Seq<Pending>,
    pub scope: Set<Seq<char>>,
    pub stop: Option<Stop>,
}

/// The messages of the compiler's own failures.
pub open spec fn illegal_message() -> Seq<char> {
    "Illegal statement"@
}

pub open spec fn redeclared_message(name: Seq<char>) -> Seq<char> {
    "Variable "@ + name + " already exists in the current scope"@
}

/// The plan of a sequence of lines; lines are numbered from 1.
pub open spec fn plan(lines: Seq<Seq<char>>) -> Plan
    decreases lines.len(),
{
    if lines.len() == 0 {
        Plan { steps: Seq::empty(), scope: Set::empty(), stop: None }
    } else {
        let p = plan(lines.drop_last());
        let n = lines.len() as nat;
        if p.stop is Some {
            p
        } else {
            match work_of(lines.last()) {
                Work::Blank => p,
                Work::Illegal => Plan {
                    stop: Some(Stop { kind: ErrorType::SyntaxError, message: illegal_message(), line: n }),
                    ..p
                },
                Work::Declare(name) => {
                    if p.scope.contains(name) {
                        Plan {
                            stop: Some(
                                Stop {
                                    kind: ErrorType::NameError,
                                    message: redeclared_message(name),
                                    line: n,
                                },
                            ),
                            ..p
                        }
                    } else {
                        Plan {
                            steps: p.steps.push(Pending { line: n, work: Work::Declare(name), scope: p.scope }),
                            scope: p.scope.insert(name),
                            stop: None,
                        }
                    }
                },
                w => Plan {
                    steps: p.steps.push(Pending { line: n, work: w, scope: p.scope }),
                    ..p
                },
            }
        }
    }
}

/// The 1-based numbers of the lines that are not blank once trimmed.
pub open spec fn statement_lines(lines: Seq<Seq<char>>) -> Seq<nat>
    decreases lines.len(),
{
    if lines.len() == 0 {
        Seq::empty()
    } else if trimmed(lines.last()).len() == 0 {
        statement_lines(lines.drop_last())
    } else {
        statement_lines(lines.drop_last()).push(lines.len() as nat)
    }
}

/// Whether the lexer, given a copy of the text `expr` and a scope holding
/// `scope`, may return `out`.
pub open spec fn lexes_to<T, F: Fn(String, Scope) -> Result<Vec<T>, Error>>(
    lex: F,
    expr: Seq<char>,
    scope: Set<Seq<char>>,
    out: Result<Vec<T>, Error>,
) -> bool {
    exists|e: String, s: Scope| e@ == expr && s@ == scope && #[trigger] lex.ensures((e, s), out)
}

/// Whether `item` is what a pending line compiles to, its expression lexed
/// with success.
pub open spec fn compiled_step<T, F: Fn(String, Scope) -> Result<Vec<T>, Error>>(
    lex: F,
    p: Pending,
    item: (usize, Instruction<T>),
) -> bool {
    &&& item.0 == p.line
    &&& match p.work {
        Work::Declare(n) => item.1 matches Instruction::Let(v) && v@ == n,
        Work::Print(e) => item.1 matches Instruction::Put(t) && lexes_to(lex, e, p.scope, Ok(t)),
        Work::Assign(n, e) => item.1 matches Instruction::SetVar(v, t) && v@ == n && lexes_to(
            lex,
            e,
            p.scope,
            Ok(t),
        ),
        _ => false,
    }
}

/// Whether a pending line may compile with success.
pub open spec fn passes<T, F: Fn(String, Scope) -> Result<Vec<T>, Error>>(lex: F, p: Pending) -> bool {
    exists|item: (usize, Instruction<T>)| #[trigger] compiled_step(lex, p, item)
}

/// Whether `err` is a lexer failure on a pending line, with the line's number
/// added to its traceback.
pub open spec fn failed_step<T, F: Fn(String, Scope) -> Result<Vec<T>, Error>>(
    lex: F,
    p: Pending,
    err: Error,
) -> bool {
    exists|inner: Error|
        {
            &&& match p.work {
                Work::Print(e) => lexes_to(lex, e, p.scope, Err::<Vec<T>, Error>(inner)),
                Work::Assign(_, e) => lexes_to(lex, e, p.scope, Err::<Vec<T>, Error>(inner)),
                _ => false,
            }
            &&& err.kind == inner.kind
            &&& err.message@ == inner.message@
            &&& #[trigger] err.traceback@ == inner.traceback@.push(p.line as usize)
        }
}

/// Whether `err` is the failure that a plan stops with.
pub open spec fn stopped_with(stop: Stop, err: Error) -> bool {
    err.kind == stop.kind && err.message@ == stop.message && err.traceback@ == seq![stop.line as usize]
}

/// Whether `r` is an outcome of compiling `lines` with the lexer `lex`: lines
/// are compiled in order, and the first failure ends the compilation.
pub open spec fn compiles_to<T, F: Fn(String, Scope) -> Result<Vec<T>, Error>>(
    lex: F,
    lines: Seq<Seq<char>>,
    r: Result<Vec<(usize, Instruction<T>)>, Error>,
) -> bool {
    let p = plan(lines);
    match r {
        Ok(v) => {
            &&& p.stop is None
            &&& v@.len() == p.steps.len() + 1
            &&& v@.last().0 == 0
            &&& v@.last().1 is End
            &&& forall|i: int| 0 <= i < p.steps.len() ==> #[trigger] compiled_step(lex, p.steps[i], v@[i])
        },
        Err(e) => exists|j: int|
            0 <= j <= p.steps.len() && (forall|i: int| 0 <= i < j ==> #[trigger] passes(lex, p.steps[i]))
                && if j < p.steps.len() {
                failed_step(lex, p.steps[j], e)
            } else {
                p.stop matches Some(s) && stopped_with(s, e)
            },
    }
}

/// The plan of a prefix of the lines is the start of the plan of all of them,
/// and all of it once it has stopped.
pub proof fn lemma_plan_prefix(lines: Seq<Seq<char>>, k: int)
    requires
        0 <= k <= lines.len(),
    ensures
        plan(lines.take(k)).steps.len() <= plan(lines).steps.len(),
        forall|i: int|
            0 <= i < plan(lines.take(k)).steps.len() ==> #[trigger] plan(lines).steps[i] == plan(
                lines.take(k),
            ).steps[i],
        plan(lines.take(k)).stop is Some ==> plan(lines) == plan(lines.take(k)),
    decreases lines.len(),
{
    if k == lines.len() {
        assert(lines.take(k) == lines);
    } else {
        lemma_plan_prefix(lines.drop_last(), k);
        assert(lines.drop_last().take(k) == lines.take(k));
    }
}

/// Where no failure stops a plan, its steps are the non-blank lines.
pub proof fn lemma_plan_lines(lines: Seq<Seq<char>>)
    requires
        plan(lines).stop is None,
    ensures
        plan(lines).steps.len() == statement_lines(lines).len(),
        forall|i: int|
            0 <= i < plan(lines).steps.len() ==> #[trigger] plan(lines).steps[i].line == statement_lines(
                lines,
            )[i],
    decreases lines.len(),
{
    if lines.len() > 0 {
        lemma_plan_lines(lines.drop_last());
    }
}

/// A failure on the line after `k` compiled lines ends the compilation
/// with that failure.
proof fn lemma_failure<T, F: Fn(String, Scope) -> Result<Vec<T>, Error>>(
    lex: F,
    lines: Seq<Seq<char>>,
    k: int,
    done: Seq<(usize, Instruction<T>)>,
    err: Error,
)
    requires
        0 <= k < lines.len(),
        plan(lines.take(k)).stop is None,
        done.len() == plan(lines.take(k)).steps.len(),
        forall|i: int|
            0 <= i < done.len() ==> #[trigger] compiled_step(lex, plan(lines.take(k)).steps[i], done[i]),
        ({
            let p = plan(lines.take(k + 1));
            ||| p.stop matches Some(s) && stopped_with(s, err)
            ||| p.stop is None && p.steps.len() == done.len() + 1 && failed_step(
                lex,
                p.steps[done.len() as int],
                err,
            )
        }),
    ensures
        compiles_to(lex, lines, Err(err)),
{
    let before = plan(lines.take(k));
    let after = plan(lines.take(k + 1));
    assert(lines.take(k + 1).drop_last() == lines.take(k));
    lemma_plan_prefix(lines, k + 1);
    let p = plan(lines);
    let j = done.len() as int;
    assert forall|i: int| 0 <= i < j implies #[trigger] passes(lex, p.steps[i]) by {
        assert(p.steps[i] == after.steps[i]);
        assert(after.steps[i] == before.steps[i]);
        assert(compiled_step(lex, p.steps[i], done[i]));
    }
    if after.stop is None {
        assert(p.steps[j] == after.steps[j]);
    }
}

/// Compiles source text, line by line, into instructions.
#[derive(Debug)]
pub struct Compiler {
    ptr: usize,
    raw: Vec<String>,
    global_scope: Scope,
}

impl Compiler {
    /// The lines of the source.
    pub closed spec fn lines(&self) -> Seq<Seq<char>> {
        views(self.raw@)
    }

    /// Nothing has been compiled yet.
    pub closed spec fn is_fresh(&self) -> bool {
        self.ptr == 0 && self.global_scope@ == Set::<Seq<char>>::empty()
    }

    /// A compiler over the lines of `raw_txt`.
    pub fn new(raw_txt: String) -> (r: Compiler)
        ensures
            r.lines() == crate::text::split_lines(raw_txt@),
            r.is_fresh(),
    {
        Compiler { ptr: 0, raw: lines_of(raw_txt.as_str()), global_scope: Scope::new() }
    }

    fn advance(&mut self)
        requires
            old(self).ptr < usize::MAX,
        ensures
            final(self).ptr == old(self).ptr + 1,
            final(self).raw == old(self).raw,
            final(self).global_scope == old(self).global_scope,
    {
        self.ptr += 1;
    }

    /// Adds the current line's number to the traceback of a failure.
    fn wrap_check<T>(&self, res: Result<T, Error>) -> (r: Result<T, Error>)
        requires
            res is Err ==> self.ptr < usize::MAX,
        ensures
            match (res, r) {
                (Ok(a), Ok(b)) => a == b,
                (Err(e), Err(f)) => f.kind == e.kind && f.message@ == e.message@ && f.traceback@
                    == e.traceback@.push((self.ptr + 1) as usize),
                _ => false,
            },
    {
        match res {
            Ok(v) => Ok(v),
            Err(error) => Err(error.traceback(Some(self.ptr + 1))),
        }
    }

    /// Compiles every line in order, passing each expression to `lex` with a
    /// copy of the names declared so far. The first failure ends the
    /// compilation; on success the instructions are followed by `End()`.
    pub fn compile<T, F>(self, lex: F) -> (r: Result<Vec<(usize, Instruction<T>)>, Error>) where
        F: Fn(String, Scope) -> Result<Vec<T>, Error>,

        requires
            self.is_fresh(),
            forall|e: String, s: Scope| #[trigger] lex.requires((e, s)),
        ensures
            compiles_to(lex, self.lines(), r),
            r matches Ok(v) ==> v@.len() == statement_lines(self.lines()).len() + 1,
            r matches Ok(v) ==> v@.last() matches (0, Instruction::End()),
            r matches Ok(v) ==> forall|i: int|
                #![trigger v@[i]]
                0 <= i < v@.len() - 1 ==> !(v@[i].1 is End),
            r matches Ok(v) ==> forall|i: int|
                0 <= i < v@.len() - 1 ==> #[trigger] v@[i].0 == statement_lines(self.lines())[i],
    {
        let ghost lines = self.lines();
        let mut this = self;
        let mut compiled: Vec<(usize, Instruction<T>)> = Vec::new();
        while this.ptr < this.raw.len()
            invariant
                forall|e: String, s: Scope| #[trigger] lex.requires((e, s)),
                this.lines() == lines,
                self.lines() == lines,
                this.ptr <= lines.len(),
                plan(lines.take(this.ptr as int)).stop is None,
                plan(lines.take(this.ptr as int)).scope == this.global_scope@,
                compiled@.len() == plan(lines.take(this.ptr as int)).steps.len(),
                forall|i: int|
                    0 <= i < compiled@.len() ==> #[trigger] compiled_step(
                        lex,
                        plan(lines.take(this.ptr as int)).steps[i],
                        compiled@[i],
                    ),
            decreases lines.len() - this.ptr,
        {
            let ghost k = this.ptr as int;
            let ghost before = plan(lines.take(k));
            let ghost old_compiled = compiled@;
            proof {
                assert(lines.take(k + 1).drop_last() == lines.take(k));
                assert(lines.take(k + 1).last() == lines[k]);
                assert(this.raw@[k]@ == lines[k]);
                lemma_plan_prefix(lines, k + 1);
            }
            let curln = trim(this.raw[this.ptr].as_str());
            if curln.as_str().unicode_len() != 0 {
                let line_no = this.ptr + 1;
                match parse_line(&curln) {
                    None => {
                        let err = Error::new(
                            ErrorType::SyntaxError,
                            String::from_str("Illegal statement"),
                            Some(line_no),
                        );
                        proof {
                            lemma_failure(lex, lines, k, compiled@, err);
                        }
                        return Err(err);
                    },
                    Some(Parsed::Print(expr)) => {
                        let ghost e = expr@;
                        let snap = this.global_scope.snapshot();
                        let res = lex(expr, snap);
                        proof {
                            assert(lexes_to(lex, e, before.scope, res));
                        }
                        match this.wrap_check(res) {
                            Ok(tokens) => {
                                compiled.push((line_no, Instruction::Put(tokens)));
                            },
                            Err(err) => {
                                proof {
                                    lemma_failure(lex, lines, k, compiled@, err);
                                        }
                                return Err(err);
                            },
                        }
                    },
                    Some(Parsed::Declare(varname)) => {
                        if this.global_scope.has_var(&varname) {
                            let msg = String::from_str("Variable ").concat(varname.as_str()).concat(
                                " already exists in the current scope",
                            );
                            let err = Error::new(ErrorType::NameError, msg, Some(line_no));
                            proof {
                                lemma_failure(lex, lines, k, compiled@, err);
                                }
                            return Err(err);
                        }
                        this.global_scope.add_var(varname.clone());
                        compiled.push((line_no, Instruction::Let(varname)));
                    },
                    Some(Parsed::Assign(varname, expr)) => {
                        let ghost e = expr@;
                        let snap = this.global_scope.snapshot();
                        let res = lex(expr, snap);
                        proof {
                            assert(lexes_to(lex, e, before.scope, res));
                        }
                        match this.wrap_check(res) {
                            Ok(tokens) => {
                                compiled.push((line_no, Instruction::SetVar(varname, tokens)));
                            },
                            Err(err) => {
                                proof {
                                    lemma_failure(lex, lines, k, compiled@, err);
                                        }
                                return Err(err);
                            },
                        }
                    },
                }
            }
            proof {
                let after = plan(lines.take(k + 1));
                assert forall|i: int| 0 <= i < compiled@.len() implies #[trigger] compiled_step(
                    lex,
                    after.steps[i],
                    compiled@[i],
                ) by {
                    if i < old_compiled.len() {
                        assert(compiled@[i] == old_compiled[i]);
                        assert(after.steps[i] == before.steps[i]);
                    }
                }
            }
            this.advance();
        }
        proof {
            assert(lines.take(lines.len() as int) == lines);
            lemma_plan_lines(lines);
        }
        let ghost body = compiled@;
        compiled.push((0, Instruction::End()));
        proof {
            let p = plan(lines);
            assert forall|i: int| 0 <= i < p.steps.len() implies #[trigger] compiled_step(
                lex,
                p.steps[i],
                compiled@[i],
            ) by {
                assert(compiled@[i] == body[i]);
            }
            assert forall|i: int|
                #![trigger compiled@[i]]
                0 <= i < compiled@.len() - 1 implies !(compiled@[i].1 is End) && compiled@[i].0
                    == statement_lines(lines)[i] by {
                assert(compiled_step(lex, p.steps[i], compiled@[i]));
            }
        }
        Ok(compiled)
    }
}

} // verus!
