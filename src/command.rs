//! Console command lines: a verb, then the rest of the line as its argument.
use vstd::prelude::*;

verus! {

/// A string without its leading and trailing whitespace.
pub uninterp spec fn trim_of(s: Seq<char>) -> Seq<char>;

/// The whitespace-separated words of a string, in order.
pub uninterp spec fn words_of(s: Seq<char>) -> Seq<Seq<char>>;

/// Relies on str::trim: leading and trailing whitespace removed; the result
/// depends on the characters alone.
#[verifier::external_body]
fn trim(s: &str) -> (r: String)
    ensures
        r@ == trim_of(s@),
{
    s.trim().to_string()
}

/// Relies on str::split_whitespace: the maximal runs of non-whitespace
/// characters, in order.
#[verifier::external_body]
pub(crate) fn split_words(s: &str) -> (r: Vec<String>)
    ensures
        crate::message::string_views(r@) == words_of(s@),
{
    s.split_whitespace().map(|w| w.to_string()).collect()
}

/// `p` is the position of the first space of `t`, or its length when it has none.
pub open spec fn first_space(t: Seq<char>, p: int) -> bool {
    &&& 0 <= p <= t.len()
    &&& forall|j: int| 0 <= j < p ==> t[j] != ' '
    &&& p < t.len() ==> t[p] == ' '
}

/// Splits a console line, once trimmed, at its first space: the verb before
/// it, and the rest, space included, as the argument.
pub fn split_command(input: &String) -> (r: (String, String))
    ensures
        exists|p: int|
            first_space(trim_of(input@), p) && r.0@ == trim_of(input@).subrange(0, p) && r.1@
                == trim_of(input@).subrange(p, trim_of(input@).len() as int),
{
    let t = trim(input.as_str());
    let st = t.as_str();
    let n = st.unicode_len();
    let mut p: usize = 0;
    while p < n
        invariant
            n == st@.len(),
            st@ == t@,
            p <= n,
            forall|j: int| 0 <= j < p ==> st@[j] != ' ',
        ensures
            p <= n,
            forall|j: int| 0 <= j < p ==> st@[j] != ' ',
            p < n ==> st@[p as int] == ' ',
        decreases n - p,
    {
        if st.get_char(p) == ' ' {
            break;
        }
        p += 1;
    }
    let verb = String::from_str(st.substring_char(0, p));
    let arg = String::from_str(st.substring_char(p, n));
    assert(first_space(t@, p as int));
    (verb, arg)
}

/// The words after the first, each followed by a space.
pub open spec fn spaced(ws: Seq<Seq<char>>) -> Seq<char>
    decreases ws.len(),
{
    if ws.len() == 0 {
        Seq::empty()
    } else {
        spaced(ws.drop_last()) + ws.last() + " "@
    }
}

} // verus!
