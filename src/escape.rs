//! Escaping of text for inclusion in markup.

use vstd::prelude::*;
use crate::text::push_char;

verus! {

/// The entity text that stands for one character.
pub open spec fn escape_char(c: char) -> Seq<char> {
    if c == '&' {
        seq!['&', 'a', 'm', 'p', ';']
    } else if c == '<' {
        seq!['&', 'l', 't', ';']
    } else if c == '>' {
        seq!['&', 'g', 't', ';']
    } else if c == '\'' {
        seq!['&', 'a', 'p', 'o', 's', ';']
    } else if c == '"' {
        seq!['&', 'q', 'u', 'o', 't', ';']
    } else {
        seq![c]
    }
}

/// `s` with each markup-sensitive character replaced by its entity.
pub open spec fn escaped(s: Seq<char>) -> Seq<char>
    decreases s.len(),
{
    if s.len() == 0 {
        seq![]
    } else {
        escaped(s.drop_last()) + escape_char(s.last())
    }
}

/// Appends the escaped form of one character.
pub fn push_escaped(r: &mut String, c: char)
    ensures
        final(r)@ == old(r)@ + escape_char(c),
{
    if c == '&' {
        r.append("&amp;");
        proof { reveal_strlit("&amp;"); }
    } else if c == '<' {
        r.append("&lt;");
        proof { reveal_strlit("&lt;"); }
    } else if c == '>' {
        r.append("&gt;");
        proof { reveal_strlit("&gt;"); }
    } else if c == '\'' {
        r.append("&apos;");
        proof { reveal_strlit("&apos;"); }
    } else if c == '"' {
        r.append("&quot;");
        proof { reveal_strlit("&quot;"); }
    } else {
        push_char(r, c);
    }
}

/// Replaces `&`, `<`, `>`, `'` and `"` by their named entities.
pub fn escape_markup(s: &str) -> (r: String)
    ensures
        r@ == escaped(s@),
{
    let mut r = String::new();
    for c in it: s.chars()
        invariant
            it.seq() == s@,
            r@ == escaped(s@.take(it.index() as int)),
    {
        proof {
            let k = it.index() as int;
            assert(s@.take(k + 1).drop_last() =~= s@.take(k));
        }
        push_escaped(&mut r, c);
    }
    proof {
        assert(s@.take(s@.len() as int) =~= s@);
    }
    r
}

} // verus!
