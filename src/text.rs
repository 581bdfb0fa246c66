use vstd::prelude::*;

verus! {

/// A character with the Unicode property White_Space.
pub open spec fn is_white_space(c: char) -> bool {
    ('\u{9}' <= c <= '\u{d}') || c == ' ' || c == '\u{85}' || c == '\u{a0}' || c == '\u{1680}'
        || ('\u{2000}' <= c <= '\u{200a}') || c == '\u{2028}' || c == '\u{2029}' || c == '\u{202f}'
        || c == '\u{205f}' || c == '\u{3000}'
}

/// `s` without its leading white space.
pub open spec fn trim_start(s: Seq<char>) -> Seq<char>
    decreases s.len(),
{
    if s.len() > 0 && is_white_space(s[0]) {
        trim_start(s.drop_first())
    } else {
        s
    }
}

/// `s` without its trailing white space.
pub open spec fn trim_end(s: Seq<char>) -> Seq<char>
    decreases s.len(),
{
    if s.len() > 0 && is_white_space(s.last()) {
        trim_end(s.drop_last())
    } else {
        s
    }
}

/// `s` without its leading and trailing white space.
pub open spec fn trimmed(s: Seq<char>) -> Seq<char> {
    trim_end(trim_start(s))
}

/// Whether `char::is_alphanumeric` holds of a character.
pub uninterp spec fn alphanumeric(c: char) -> bool;

/// Relies on str::trim: leading and trailing characters with the Unicode
/// property White_Space removed.
#[verifier::external_body]
pub(crate) fn trim(s: &str) -> (r: String)
    ensures
        r@ == trimmed(s@),
{
    s.trim().to_string()
}

/// Relies on char::is_alphanumeric: the Unicode Alphabetic or Numeric property.
#[verifier::external_body]
pub(crate) fn is_alphanumeric(c: char) -> (r: bool)
    ensures
        r == alphanumeric(c),
{
    c.is_alphanumeric()
}

/// A word character: alphanumeric, or an underscore.
pub open spec fn is_word(c: char) -> bool {
    alphanumeric(c) || c == '_'
}

/// A non-empty run of word characters.
pub open spec fn is_word_run(s: Seq<char>) -> bool {
    s.len() > 0 && forall|i: int| 0 <= i < s.len() ==> #[trigger] is_word(s[i])
}

/// Whether `c` is a word character.
pub fn word_char(c: char) -> (r: bool)
    ensures
        r == is_word(c),
{
    c == '_' || is_alphanumeric(c)
}

/// The lines read so far, the text of the open line, and whether the last
/// character was a carriage return.
pub open spec fn scan(t: Seq<char>) -> (Seq<Seq<char>>, Seq<char>, bool)
    decreases t.len(),
{
    if t.len() == 0 {
        (Seq::empty(), Seq::empty(), false)
    } else {
        let (done, cur, cr) = scan(t.drop_last());
        let c = t.last();
        if c == '\n' && cr {
            (done, cur, false)
        } else if c == '\r' || c == '\n' {
            (done.push(cur), Seq::empty(), c == '\r')
        } else {
            (done, cur.push(c), false)
        }
    }
}

/// The lines of a text. A line ends at a line feed, a carriage return, or
/// a carriage return followed by a line feed; the part after the last end is
/// a line too, even when empty.
pub open spec fn split_lines(t: Seq<char>) -> Seq<Seq<char>> {
    scan(t).0.push(scan(t).1)
}

/// The views of a vector of strings.
pub open spec fn views(v: Seq<String>) -> Seq<Seq<char>> {
    v.map_values(|s: String| s@)
}

/// Splits a text into its lines.
pub fn lines_of(text: &str) -> (r: Vec<String>)
    ensures
        views(r@) == split_lines(text@),
{
    let n = text.unicode_len();
    let mut res: Vec<String> = Vec::new();
    let mut start: usize = 0;
    let mut cr = false;
    let mut i: usize = 0;
    while i < n
        invariant
            n == text@.len(),
            start <= i <= n,
            scan(text@.take(i as int)) == (views(res@), text@.subrange(start as int, i as int), cr),
        decreases n - i,
    {
        let c = text.get_char(i);
        proof {
            assert(text@.take(i + 1).drop_last() == text@.take(i as int));
        }
        if c == '\n' && cr {
            start = i + 1;
            cr = false;
            proof {
                assert(text@.subrange(start as int, i + 1) == Seq::<char>::empty());
            }
        } else if c == '\r' || c == '\n' {
            let line = String::from_str(text.substring_char(start, i));
            let ghost before = res@;
            res.push(line);
            start = i + 1;
            cr = c == '\r';
            proof {
                assert(res@.drop_last() == before);
                assert(views(res@) =~= views(before).push(line@));
                assert(text@.subrange(start as int, i + 1) == Seq::<char>::empty());
            }
        } else {
            cr = false;
            proof {
                assert(text@.subrange(start as int, i + 1) == text@.subrange(start as int, i as int).push(c));
            }
        }
        i = i + 1;
    }
    proof {
        assert(text@.take(n as int) == text@);
    }
    let last = String::from_str(text.substring_char(start, n));
    let ghost before = res@;
    res.push(last);
    proof {
        assert(views(res@) =~= views(before).push(last@));
    }
    res
}

} // verus!
