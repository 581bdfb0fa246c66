use vstd::prelude::*;
use crate::compiler::{
    compiled_step, compiles_to, failed_step, lexes_to, passes, plan, stopped_with, Instruction,
    Pending, Work,
};
use crate::error::{Error, ErrorType};
use crate::scope::Scope;
use crate::text::split_lines;

verus! {

/// An instruction, with its strings and vectors as sequences.
pub enum Op<T> {
    Put(Seq<T>),
    Let(Seq<char>),
    SetVar(Seq<char>, Seq<T>),
    End,
}

pub open spec fn op<T>(i: Instruction<T>) -> Op<T> {
    match i {
        Instruction::Put(t) => Op::Put(t@),
        Instruction::Let(n) => Op::Let(n@),
        Instruction::SetVar(n, t) => Op::SetVar(n@, t@),
        Instruction::End() => Op::End,
    }
}

/// An error's kind, message and traceback.
pub open spec fn failure(e: Error) -> (ErrorType, Seq<char>, Seq<usize>) {
    (e.kind, e.message@, e.traceback@)
}

/// What a lexer returned, as sequences.
pub open spec fn lexed<T>(o: Result<Vec<T>, Error>) -> Result<Seq<T>, (ErrorType, Seq<char>, Seq<usize>)> {
    match o {
        Ok(v) => Ok(v@),
        Err(e) => Err(failure(e)),
    }
}

/// What a compilation returned, as sequences.
pub open spec fn outcome<T>(r: Result<Vec<(usize, Instruction<T>)>, Error>) -> Result<
    Seq<(usize, Op<T>)>,
    (ErrorType, Seq<char>, Seq<usize>),
> {
    match r {
        Ok(v) => Ok(v@.map_values(|x: (usize, Instruction<T>)| (x.0, op(x.1)))),
        Err(e) => Err(failure(e)),
    }
}

/// A lexer whose result depends on the text and the names of the scope alone.
pub open spec fn deterministic<T, F: Fn(String, Scope) -> Result<Vec<T>, Error>>(lex: F) -> bool {
    forall|e1: String, s1: Scope, e2: String, s2: Scope, o1: Result<Vec<T>, Error>, o2: Result<Vec<T>, Error>|
        e1@ == e2@ && s1@ == s2@ && #[trigger] lex.ensures((e1, s1), o1) && #[trigger] lex.ensures((e2, s2), o2)
            ==> lexed(o1) == lexed(o2)
}

proof fn lemma_same_step<T, F: Fn(String, Scope) -> Result<Vec<T>, Error>>(
    lex: F,
    p: Pending,
    a: (usize, Instruction<T>),
    b: (usize, Instruction<T>),
)
    requires
        deterministic(lex),
        compiled_step(lex, p, a),
        compiled_step(lex, p, b),
    ensures
        a.0 == b.0,
        op(a.1) == op(b.1),
{
    match (a.1, b.1) {
        (Instruction::Put(t1), Instruction::Put(t2)) => {
            let e = p.work->Print_0;
            let (e1, s1) = choose|e1: String, s1: Scope| e1@ == e && s1@ == p.scope && #[trigger] lex.ensures((e1, s1), Ok::<Vec<T>, Error>(t1));
            let (e2, s2) = choose|e2: String, s2: Scope| e2@ == e && s2@ == p.scope && #[trigger] lex.ensures((e2, s2), Ok::<Vec<T>, Error>(t2));
            assert(lexed(Ok::<Vec<T>, Error>(t1)) == lexed(Ok::<Vec<T>, Error>(t2)));
        },
        (Instruction::SetVar(_, t1), Instruction::SetVar(_, t2)) => {
            let e = p.work->Assign_1;
            let (e1, s1) = choose|e1: String, s1: Scope| e1@ == e && s1@ == p.scope && #[trigger] lex.ensures((e1, s1), Ok::<Vec<T>, Error>(t1));
            let (e2, s2) = choose|e2: String, s2: Scope| e2@ == e && s2@ == p.scope && #[trigger] lex.ensures((e2, s2), Ok::<Vec<T>, Error>(t2));
            assert(lexed(Ok::<Vec<T>, Error>(t1)) == lexed(Ok::<Vec<T>, Error>(t2)));
        },
        _ => {},
    }
}

proof fn lemma_pass_or_fail<T, F: Fn(String, Scope) -> Result<Vec<T>, Error>>(
    lex: F,
    p: Pending,
    a: (usize, Instruction<T>),
    err: Error,
)
    requires
        deterministic(lex),
        compiled_step(lex, p, a),
    ensures
        !failed_step(lex, p, err),
{
    if failed_step(lex, p, err) {
    let inner = choose|inner: Error|
        {
            &&& match p.work {
                Work::Print(e) => lexes_to(lex, e, p.scope, Err::<Vec<T>, Error>(inner)),
                Work::Assign(_, e) => lexes_to(lex, e, p.scope, Err::<Vec<T>, Error>(inner)),
                _ => false,
            }
            &&& err.kind == inner.kind
            &&& err.message@ == inner.message@
            &&& #[trigger] err.traceback@ == inner.traceback@.push(p.line as usize)
        };
    let e = match p.work {
        Work::Print(e) => e,
        Work::Assign(_, e) => e,
        _ => Seq::empty(),
    };
    let t = match a.1 {
        Instruction::Put(t) => t,
        Instruction::SetVar(_, t) => t,
        _ => arbitrary(),
    };
    let (e1, s1) = choose|e1: String, s1: Scope| e1@ == e && s1@ == p.scope && #[trigger] lex.ensures((e1, s1), Ok::<Vec<T>, Error>(t));
    let (e2, s2) = choose|e2: String, s2: Scope| e2@ == e && s2@ == p.scope && #[trigger] lex.ensures((e2, s2), Err::<Vec<T>, Error>(inner));
    assert(lexed(Ok::<Vec<T>, Error>(t)) == lexed(Err::<Vec<T>, Error>(inner)));
    }
}

proof fn lemma_same_failure<T, F: Fn(String, Scope) -> Result<Vec<T>, Error>>(
    lex: F,
    p: Pending,
    x: Error,
    y: Error,
)
    requires
        deterministic(lex),
        failed_step(lex, p, x),
        failed_step(lex, p, y),
    ensures
        failure(x) == failure(y),
{
    let e = match p.work {
        Work::Print(e) => e,
        Work::Assign(_, e) => e,
        _ => Seq::empty(),
    };
    let ix = choose|inner: Error|
        {
            &&& match p.work {
                Work::Print(e) => lexes_to(lex, e, p.scope, Err::<Vec<T>, Error>(inner)),
                Work::Assign(_, e) => lexes_to(lex, e, p.scope, Err::<Vec<T>, Error>(inner)),
                _ => false,
            }
            &&& x.kind == inner.kind
            &&& x.message@ == inner.message@
            &&& #[trigger] x.traceback@ == inner.traceback@.push(p.line as usize)
        };
    let iy = choose|inner: Error|
        {
            &&& match p.work {
                Work::Print(e) => lexes_to(lex, e, p.scope, Err::<Vec<T>, Error>(inner)),
                Work::Assign(_, e) => lexes_to(lex, e, p.scope, Err::<Vec<T>, Error>(inner)),
                _ => false,
            }
            &&& y.kind == inner.kind
            &&& y.message@ == inner.message@
            &&& #[trigger] y.traceback@ == inner.traceback@.push(p.line as usize)
        };
    let (e1, s1) = choose|e1: String, s1: Scope| e1@ == e && s1@ == p.scope && #[trigger] lex.ensures((e1, s1), Err::<Vec<T>, Error>(ix));
    let (e2, s2) = choose|e2: String, s2: Scope| e2@ == e && s2@ == p.scope && #[trigger] lex.ensures((e2, s2), Err::<Vec<T>, Error>(iy));
    assert(lexed(Err::<Vec<T>, Error>(ix)) == lexed(Err::<Vec<T>, Error>(iy)));
}

/// Compiling one text twice, with a lexer whose result depends on the
/// expression and the scope alone, gives the same outcome: the same
/// instructions on the same lines, or the same error.
pub proof fn lemma_compile_deterministic<T, F: Fn(String, Scope) -> Result<Vec<T>, Error>>(
    lex: F,
    text: Seq<char>,
    r1: Result<Vec<(usize, Instruction<T>)>, Error>,
    r2: Result<Vec<(usize, Instruction<T>)>, Error>,
)
    requires
        deterministic(lex),
        compiles_to(lex, split_lines(text), r1),
        compiles_to(lex, split_lines(text), r2),
    ensures
        outcome(r1) == outcome(r2),
{
    let lines = split_lines(text);
    let p = plan(lines);
    match (r1, r2) {
        (Ok(v1), Ok(v2)) => {
            let f = |x: (usize, Instruction<T>)| (x.0, op(x.1));
            assert forall|i: int| 0 <= i < v1@.len() implies #[trigger] v1@.map_values(f)[i] == v2@.map_values(f)[i] by {
                if i < p.steps.len() {
                    lemma_same_step(lex, p.steps[i], v1@[i], v2@[i]);
                }
            }
            assert(v1@.map_values(f) =~= v2@.map_values(f));
        },
        (Ok(v), Err(e)) => {
            let j = choose|j: int|
                0 <= j <= p.steps.len() && (forall|i: int| 0 <= i < j ==> #[trigger] passes(lex, p.steps[i]))
                    && if j < p.steps.len() {
                    failed_step(lex, p.steps[j], e)
                } else {
                    p.stop matches Some(s) && stopped_with(s, e)
                };
            if j < p.steps.len() {
                assert(compiled_step(lex, p.steps[j], v@[j]));
                lemma_pass_or_fail(lex, p.steps[j], v@[j], e);
            }
        },
        (Err(e), Ok(v)) => {
            let j = choose|j: int|
                0 <= j <= p.steps.len() && (forall|i: int| 0 <= i < j ==> #[trigger] passes(lex, p.steps[i]))
                    && if j < p.steps.len() {
                    failed_step(lex, p.steps[j], e)
                } else {
                    p.stop matches Some(s) && stopped_with(s, e)
                };
            if j < p.steps.len() {
                assert(compiled_step(lex, p.steps[j], v@[j]));
                lemma_pass_or_fail(lex, p.steps[j], v@[j], e);
            }
        },
        (Err(x), Err(y)) => {
            let j1 = choose|j: int|
                0 <= j <= p.steps.len() && (forall|i: int| 0 <= i < j ==> #[trigger] passes(lex, p.steps[i]))
                    && if j < p.steps.len() {
                    failed_step(lex, p.steps[j], x)
                } else {
                    p.stop matches Some(s) && stopped_with(s, x)
                };
            let j2 = choose|j: int|
                0 <= j <= p.steps.len() && (forall|i: int| 0 <= i < j ==> #[trigger] passes(lex, p.steps[i]))
                    && if j < p.steps.len() {
                    failed_step(lex, p.steps[j], y)
                } else {
                    p.stop matches Some(s) && stopped_with(s, y)
                };
            if j1 < j2 {
                assert(passes(lex, p.steps[j1]));
                let a = choose|a: (usize, Instruction<T>)| #[trigger] compiled_step(lex, p.steps[j1], a);
                lemma_pass_or_fail(lex, p.steps[j1], a, x);
            } else if j2 < j1 {
                assert(passes(lex, p.steps[j2]));
                let a = choose|a: (usize, Instruction<T>)| #[trigger] compiled_step(lex, p.steps[j2], a);
                lemma_pass_or_fail(lex, p.steps[j2], a, y);
            } else if j1 < p.steps.len() {
                lemma_same_failure(lex, p.steps[j1], x, y);
            }
        },
    }
}

} // verus!
