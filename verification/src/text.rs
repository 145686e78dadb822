use vstd::prelude::*;

verus! {

broadcast use vstd::string::group_string_axioms;

/// Appends one character to a string (`String::push`).
#[verifier::external_body]
pub(crate) fn push_char(s: &mut String, c: char)
    ensures
        final(s)@ == old(s)@.push(c),
{
    s.push(c);
}

/// `s` with every occurrence of `from` replaced by `to`.
pub open spec fn replace_char(s: Seq<char>, from: char, to: char) -> Seq<char> {
    Seq::new(s.len(), |i: int| if s[i] == from { to } else { s[i] })
}

/// Copies `text`, replacing each `from` by `to`.
pub fn replace_chars(text: &str, from: char, to: char) -> (res: String)
    ensures
        res@ == replace_char(text@, from, to),
{
    let mut res = String::new();
    for c in it: text.chars()
        invariant
            it.seq() == text@,
            res@ == replace_char(text@.take(it.index() as int), from, to),
    {
        proof {
            assert(text@.take(it.index() + 1) == text@.take(it.index() as int).push(c));
        }
        if c == from {
            push_char(&mut res, to);
        } else {
            push_char(&mut res, c);
        }
    }
    proof { assert(text@.take(text@.len() as int) == text@); }
    res
}


/// Whether `c` occurs in `text`.
pub fn contains_char(text: &str, c: char) -> (found: bool)
    ensures
        found == text@.contains(c),
{
    let mut found = false;
    for d in it: text.chars()
        invariant
            it.seq() == text@,
            found == text@.take(it.index() as int).contains(c),
    {
        proof {
            let t = text@.take(it.index() as int);
            let t1 = text@.take(it.index() + 1);
            assert(t1 == t.push(d));
            if t1.contains(c) && !t.contains(c) {
                let k = choose|k: int| 0 <= k < t1.len() && t1[k] == c;
                assert(k == t.len());
            }
            if t.contains(c) {
                let k = choose|k: int| 0 <= k < t.len() && t[k] == c;
                assert(t1[k] == c);
            }
            if d == c {
                assert(t1[t.len() as int] == c);
            }
        }
        if d == c {
            found = true;
        }
    }
    proof { assert(text@.take(text@.len() as int) == text@); }
    found
}

/// The first character of `text`, if any.
pub fn first_char(text: &str) -> (c: Option<char>)
    ensures
        c == (if text@.len() == 0 { None } else { Some(text@[0]) }),
{
    let mut it = text.chars();
    it.next()
}

/// The last character of `text`, if any.
pub fn last_char(text: &str) -> (c: Option<char>)
    ensures
        c == (if text@.len() == 0 { None } else { Some(text@.last()) }),
{
    let mut last: Option<char> = None;
    for d in it: text.chars()
        invariant
            it.seq() == text@,
            last == (if it.index() == 0 { None } else { Some(text@[it.index() - 1]) }),
    {
        last = Some(d);
    }
    last
}

/// `text` without its last character; empty text stays empty.
pub fn without_last_char(text: &str) -> (res: String)
    ensures
        res@ == (if text@.len() == 0 { text@ } else { text@.drop_last() }),
{
    let n: usize = text.unicode_len();
    let mut res = String::new();
    let mut count: usize = 0;
    for d in it: text.chars()
        invariant
            it.seq() == text@,
            n == text@.len(),
            count == it.index(),
            res@ == text@.take(if count + 1 < n { count as int } else { if n == 0 { 0 } else { n - 1 } }),
    {
        proof {
            assert(text@.take(count + 1) == text@.take(count as int).push(d));
        }
        if count + 1 < n {
            push_char(&mut res, d);
        }
        count = count + 1;
    }
    proof {
        if n > 0 { assert(text@.drop_last() == text@.take(n - 1)); }
        else { assert(text@.take(0) == text@); }
    }
    res
}

} // verus!
