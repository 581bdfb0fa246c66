use vstd::prelude::*;
use crate::text::{is_word, is_word_run, word_char};

verus! {

/// The three sentence shapes of the language.
#[derive(Debug, Clone, Copy, PartialEq, Eq, Structural)]
pub enum Statement {
    /// `Never gonna say <expression>`
    Say,
    /// `Never gonna let <name> down`
    Let,
    /// `Never gonna give <name> <expression>`
    Assign,
}

/// The fixed text that opens each statement, and the one that closes `Let`.
pub open spec fn say_prefix() -> Seq<char> {
    "Never gonna say "@
}

pub open spec fn let_prefix() -> Seq<char> {
    "Never gonna let "@
}

pub open spec fn let_suffix() -> Seq<char> {
    " down"@
}

pub open spec fn give_prefix() -> Seq<char> {
    "Never gonna give "@
}

pub open spec fn has_prefix(s: Seq<char>, p: Seq<char>) -> bool {
    p.len() <= s.len() && s.take(p.len() as int) == p
}

pub open spec fn has_suffix(s: Seq<char>, q: Seq<char>) -> bool {
    q.len() <= s.len() && s.skip(s.len() - q.len()) == q
}

/// The prefix, then at least one character.
pub open spec fn is_say(s: Seq<char>) -> bool {
    has_prefix(s, say_prefix()) && s.len() > say_prefix().len()
}

/// The prefix, a run of word characters, the suffix.
pub open spec fn is_let(s: Seq<char>) -> bool {
    has_prefix(s, let_prefix()) && has_suffix(s, let_suffix()) && s.len() >= let_prefix().len()
        + let_suffix().len() && is_word_run(
        s.subrange(let_prefix().len() as int, s.len() - let_suffix().len()),
    )
}

/// A run of word characters, a space, then at least one character.
pub open spec fn is_assign_body(r: Seq<char>) -> bool {
    exists|k: int| 1 <= k && k + 1 < r.len() && #[trigger] is_word_run(r.take(k)) && r[k] == ' '
}

/// The prefix, then a name and an expression.
pub open spec fn is_assign(s: Seq<char>) -> bool {
    has_prefix(s, give_prefix()) && is_assign_body(s.skip(give_prefix().len() as int))
}

impl Statement {
    /// Whether a whole line has this statement's shape.
    pub open spec fn shape(self, s: Seq<char>) -> bool {
        match self {
            Statement::Say => is_say(s),
            Statement::Let => is_let(s),
            Statement::Assign => is_assign(s),
        }
    }

    /// The first shape, in the order `Say`, `Let`, `Assign`, that a line has.
    pub open spec fn classify(s: Seq<char>) -> Option<Statement> {
        if is_say(s) {
            Some(Statement::Say)
        } else if is_let(s) {
            Some(Statement::Let)
        } else if is_assign(s) {
            Some(Statement::Assign)
        } else {
            None
        }
    }

    /// Whether a trimmed line has this statement's shape.
    pub fn matches(&self, raw: &String) -> (r: bool)
        ensures
            r == self.shape(raw@),
    {
        let s = raw.as_str();
        match self {
            Statement::Say => {
                let p = "Never gonna say ";
                starts_with(s, p) && s.unicode_len() > p.unicode_len()
            },
            Statement::Let => {
                let p = "Never gonna let ";
                let q = " down";
                let n = s.unicode_len();
                let pn = p.unicode_len();
                let qn = q.unicode_len();
                if !(starts_with(s, p) && ends_with(s, q)) || n - qn < pn {
                    return false;
                }
                all_word(s, pn, n - qn)
            },
            Statement::Assign => {
                let p = "Never gonna give ";
                starts_with(s, p) && assign_body(s, p.unicode_len())
            },
        }
    }

    /// The statement whose shape a trimmed line has, trying `Say`, `Let` and
    /// `Assign` in that order.
    pub fn match_statement(raw: &String) -> (r: Option<Statement>)
        ensures
            r == Statement::classify(raw@),
    {
        if Statement::Say.matches(raw) {
            Some(Statement::Say)
        } else if Statement::Let.matches(raw) {
            Some(Statement::Let)
        } else if Statement::Assign.matches(raw) {
            Some(Statement::Assign)
        } else {
            None
        }
    }
}

fn starts_with(s: &str, p: &str) -> (r: bool)
    ensures
        r == has_prefix(s@, p@),
{
    let n = s.unicode_len();
    let m = p.unicode_len();
    if m > n {
        return false;
    }
    let mut i: usize = 0;
    while i < m
        invariant
            m == p@.len(),
            m <= n == s@.len(),
            i <= m,
            forall|j: int| 0 <= j < i ==> s@[j] == p@[j],
        decreases m - i,
    {
        if s.get_char(i) != p.get_char(i) {
            assert(s@.take(m as int)[i as int] != p@[i as int]);
            return false;
        }
        i = i + 1;
    }
    assert(s@.take(m as int) =~= p@);
    true
}

fn ends_with(s: &str, q: &str) -> (r: bool)
    ensures
        r == has_suffix(s@, q@),
{
    let n = s.unicode_len();
    let m = q.unicode_len();
    if m > n {
        return false;
    }
    let d = n - m;
    let mut i: usize = 0;
    while i < m
        invariant
            m == q@.len(),
            m <= n == s@.len(),
            d == n - m,
            i <= m,
            forall|j: int| 0 <= j < i ==> s@[d + j] == q@[j],
        decreases m - i,
    {
        if s.get_char(d + i) != q.get_char(i) {
            assert(s@.skip(d as int)[i as int] != q@[i as int]);
            return false;
        }
        i = i + 1;
    }
    assert(s@.skip(d as int) =~= q@);
    true
}

/// Whether the characters from `from` up to `to` form a run of word characters.
fn all_word(s: &str, from: usize, to: usize) -> (r: bool)
    requires
        from <= to <= s@.len(),
    ensures
        r == is_word_run(s@.subrange(from as int, to as int)),
{
    if from == to {
        return false;
    }
    let mut i = from;
    while i < to
        invariant
            from < to <= s@.len(),
            from <= i <= to,
            forall|j: int| from <= j < i ==> is_word(#[trigger] s@[j]),
        decreases to - i,
    {
        if !word_char(s.get_char(i)) {
            assert(!is_word(s@.subrange(from as int, to as int)[i - from]));
            return false;
        }
        i = i + 1;
    }
    assert forall|j: int| 0 <= j < to - from implies #[trigger] is_word(
        s@.subrange(from as int, to as int)[j],
    ) by {
        assert(s@.subrange(from as int, to as int)[j] == s@[from + j]);
    }
    true
}

/// Whether the characters from `from` on form a name, a space and an expression.
fn assign_body(s: &str, from: usize) -> (r: bool)
    requires
        from <= s@.len(),
    ensures
        r == is_assign_body(s@.skip(from as int)),
{
    let ghost b = s@.skip(from as int);
    let n = s.unicode_len();
    let len = n - from;
    if len < 3 {
        return false;
    }
    let mut k: usize = 1;
    while k + 1 < len
        invariant
            n == s@.len(),
            from <= n,
            b == s@.skip(from as int),
            len == b.len(),
            len == n - from,
            1 <= k < len,
            forall|j: int| 0 <= j < k - 1 ==> is_word(#[trigger] b[j]),
            forall|j: int| 1 <= j < k ==> b[j] != ' ',
        decreases len - k,
    {
        if !word_char(s.get_char(from + k - 1)) {
            assert(b[k - 1] == s@[from + k - 1]);
            assert forall|j: int| 1 <= j && j + 1 < b.len() && #[trigger] is_word_run(b.take(j))
                implies b[j] != ' ' by {
                if j >= k {
                    assert(b.take(j)[k - 1] == b[k - 1]);
                }
            }
            return false;
        }
        if s.get_char(from + k) == ' ' {
            assert(b[k as int] == ' ');
            assert forall|j: int| 0 <= j < k implies #[trigger] is_word(b.take(k as int)[j]) by {
                assert(b.take(k as int)[j] == b[j]);
            }
            assert(is_word_run(b.take(k as int)));
            return true;
        }
        k = k + 1;
    }
    assert forall|j: int| 1 <= j && j + 1 < b.len() && #[trigger] is_word_run(b.take(j))
        implies b[j] != ' ' by {
    }
    false
}

} // verus!
