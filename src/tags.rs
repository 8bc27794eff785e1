//! Classification of the content of a markup tag (the text between `<` and `>`).

use vstd::prelude::*;

verus! {

/// What a tag means to the colour stack.
#[derive(Clone, Copy, Debug, PartialEq, Eq, Structural)]
pub enum TagKind {
    /// `<span ...>`: opens a colour span.
    OpenSpan,
    /// `</span>`: closes the innermost colour span.
    CloseSpan,
    /// Any other tag (`<b>`, `</b>`, ...): no effect on colours.
    Other,
}

pub open spec fn is_space(c: char) -> bool {
    c == ' ' || c == '\t' || c == '\n' || c == '\r'
}

/// Index of the first whitespace or `/` at or after `k`, or the length.
pub open spec fn name_end(b: Seq<char>, k: int) -> int
    decreases b.len() - k,
{
    if k >= b.len() {
        b.len() as int
    } else if is_space(b[k]) || b[k] == '/' {
        k
    } else {
        name_end(b, k + 1)
    }
}

/// The tag name `span`, in any letter case.
pub open spec fn is_span_name(n: Seq<char>) -> bool {
    &&& n.len() == 4
    &&& (n[0] == 's' || n[0] == 'S')
    &&& (n[1] == 'p' || n[1] == 'P')
    &&& (n[2] == 'a' || n[2] == 'A')
    &&& (n[3] == 'n' || n[3] == 'N')
}

pub open spec fn tag_kind(b: Seq<char>) -> TagKind {
    if b.len() > 0 && b[0] == '/' {
        if is_span_name(b.subrange(1, name_end(b, 1))) {
            TagKind::CloseSpan
        } else {
            TagKind::Other
        }
    } else if is_span_name(b.subrange(0, name_end(b, 0))) {
        TagKind::OpenSpan
    } else {
        TagKind::Other
    }
}

pub open spec fn color_key() -> Seq<char> {
    seq!['c', 'o', 'l', 'o', 'r', '=']
}

/// An attribute `color=` starts at `k`, right after whitespace.
pub open spec fn color_key_at(b: Seq<char>, k: int) -> bool {
    &&& 0 < k
    &&& k + 6 <= b.len()
    &&& is_space(b[k - 1])
    &&& b.subrange(k, k + 6) == color_key()
}

/// The first `k' >= k` at which a `color=` attribute starts.
pub open spec fn find_color_key(b: Seq<char>, k: int) -> Option<int>
    decreases b.len() - k,
{
    if k + 6 > b.len() {
        None
    } else if color_key_at(b, k) {
        Some(k)
    } else {
        find_color_key(b, k + 1)
    }
}

/// The first index at or after `k` that holds `q`.
pub open spec fn find_char(b: Seq<char>, q: char, k: int) -> Option<int>
    decreases b.len() - k,
{
    if k >= b.len() {
        None
    } else if b[k] == q {
        Some(k)
    } else {
        find_char(b, q, k + 1)
    }
}

/// The double-quoted value of the first `color=` attribute of an opening tag,
/// or `None` where it is missing, unquoted or unterminated.
pub open spec fn span_color(b: Seq<char>) -> Option<Seq<char>> {
    match find_color_key(b, name_end(b, 0)) {
        None => None,
        Some(k) => if k < b.len() - 6 && b[k + 6] == '"' {
            match find_char(b, '"', k + 7) {
                Some(e) => Some(b.subrange(k + 7, e)),
                None => None,
            }
        } else {
            None
        },
    }
}

fn is_space_exec(c: char) -> (r: bool)
    ensures
        r == is_space(c),
{
    c == ' ' || c == '\t' || c == '\n' || c == '\r'
}

fn name_end_exec(b: &Vec<char>, k: usize) -> (r: usize)
    requires
        k <= b@.len(),
    ensures
        r as int == name_end(b@, k as int),
        k <= r <= b@.len(),
{
    proof {
        lemma_name_end_range(b@, k as int);
    }
    let mut i = k;
    while i < b.len() && !is_space_exec(b[i]) && b[i] != '/'
        invariant
            k <= i <= b@.len(),
            name_end(b@, i as int) == name_end(b@, k as int),
        decreases b@.len() - i,
    {
        i = i + 1;
    }
    i
}

fn is_span_name_exec(b: &Vec<char>, from: usize, to: usize) -> (r: bool)
    requires
        from <= to <= b@.len(),
    ensures
        r == is_span_name(b@.subrange(from as int, to as int)),
{
    to - from == 4 && (b[from] == 's' || b[from] == 'S') && (b[from + 1] == 'p' || b[from + 1]
        == 'P') && (b[from + 2] == 'a' || b[from + 2] == 'A') && (b[from + 3] == 'n' || b[from
        + 3] == 'N')
}

/// Classifies the content of a tag.
pub fn classify_tag(b: &Vec<char>) -> (r: TagKind)
    ensures
        r == tag_kind(b@),
{
    if b.len() > 0 && b[0] == '/' {
        let e = name_end_exec(b, 1);
        if is_span_name_exec(b, 1, e) {
            TagKind::CloseSpan
        } else {
            TagKind::Other
        }
    } else {
        let e = name_end_exec(b, 0);
        if is_span_name_exec(b, 0, e) {
            TagKind::OpenSpan
        } else {
            TagKind::Other
        }
    }
}

fn color_key_at_exec(b: &Vec<char>, k: usize) -> (r: bool)
    requires
        k <= b@.len(),
    ensures
        r == color_key_at(b@, k as int),
{
    if k == 0 || b.len() < 6 || k > b.len() - 6 || !is_space_exec(b[k - 1]) {
        return false;
    }
    let r = b[k] == 'c' && b[k + 1] == 'o' && b[k + 2] == 'l' && b[k + 3] == 'o' && b[k + 4]
        == 'r' && b[k + 5] == '=';
    proof {
        if r {
            assert(b@.subrange(k as int, k + 6) =~= color_key());
        } else {
            assert(b@.subrange(k as int, k + 6) != color_key()) by {
                if b@.subrange(k as int, k + 6) == color_key() {
                    assert(b@.subrange(k as int, k + 6)[0] == b@[k as int]);
                    assert(b@.subrange(k as int, k + 6)[1] == b@[k + 1]);
                    assert(b@.subrange(k as int, k + 6)[2] == b@[k + 2]);
                    assert(b@.subrange(k as int, k + 6)[3] == b@[k + 3]);
                    assert(b@.subrange(k as int, k + 6)[4] == b@[k + 4]);
                    assert(b@.subrange(k as int, k + 6)[5] == b@[k + 5]);
                }
            }
        }
    }
    r
}

fn find_color_key_exec(b: &Vec<char>, k: usize) -> (r: Option<usize>)
    requires
        k <= b@.len(),
    ensures
        match r {
            Some(i) => find_color_key(b@, k as int) == Some(i as int),
            None => find_color_key(b@, k as int) is None,
        },
{
    let mut i = k;
    while b.len() >= 6 && i <= b.len() - 6
        invariant
            k <= i <= b@.len(),
            find_color_key(b@, i as int) == find_color_key(b@, k as int),
        decreases b@.len() - i,
    {
        if color_key_at_exec(b, i) {
            return Some(i);
        }
        i = i + 1;
    }
    None
}

fn find_char_exec(b: &Vec<char>, q: char, k: usize) -> (r: Option<usize>)
    requires
        k <= b@.len(),
    ensures
        match r {
            Some(i) => find_char(b@, q, k as int) == Some(i as int),
            None => find_char(b@, q, k as int) is None,
        },
{
    let mut i = k;
    while i < b.len()
        invariant
            k <= i <= b@.len(),
            find_char(b@, q, i as int) == find_char(b@, q, k as int),
        decreases b@.len() - i,
    {
        if b[i] == q {
            return Some(i);
        }
        i = i + 1;
    }
    None
}

/// Lemma: a found index lies in range.
proof fn lemma_find_char_range(b: Seq<char>, q: char, k: int)
    requires
        0 <= k,
    ensures
        find_char(b, q, k) matches Some(e) ==> k <= e < b.len() && b[e] == q,
    decreases b.len() - k,
{
    if k < b.len() && b[k] != q {
        lemma_find_char_range(b, q, k + 1);
    }
}

/// The value of the `color` attribute of an opening tag, as characters.
pub fn span_color_exec(b: &Vec<char>) -> (r: Option<Vec<char>>)
    ensures
        match r {
            Some(v) => span_color(b@) == Some(v@),
            None => span_color(b@) is None,
        },
{
    let s = name_end_exec(b, 0);
    proof {
        lemma_name_end_range(b@, 0);
    }
    match find_color_key_exec(b, s) {
        None => None,
        Some(k) => {
            proof {
                lemma_find_color_key_range(b@, s as int);
            }
            if k < b.len() - 6 && b[k + 6] == '"' {
                match find_char_exec(b, '"', k + 7) {
                    Some(e) => {
                        proof {
                            lemma_find_char_range(b@, '"', k + 7);
                        }
                        let mut v: Vec<char> = Vec::new();
                        let mut i = k + 7;
                        while i < e
                            invariant
                                k + 7 <= i <= e <= b@.len(),
                                v@ == b@.subrange(k + 7, i as int),
                            decreases e - i,
                        {
                            v.push(b[i]);
                            i = i + 1;
                            proof {
                                assert(v@ =~= b@.subrange(k + 7, i as int));
                            }
                        }
                        Some(v)
                    },
                    None => None,
                }
            } else {
                None
            }
        },
    }
}

pub(crate) proof fn lemma_name_end_range(b: Seq<char>, k: int)
    requires
        0 <= k <= b.len(),
    ensures
        k <= name_end(b, k) <= b.len(),
    decreases b.len() - k,
{
    if k < b.len() && !(is_space(b[k]) || b[k] == '/') {
        lemma_name_end_range(b, k + 1);
    }
}

pub(crate) proof fn lemma_find_color_key_range(b: Seq<char>, k: int)
    requires
        0 <= k,
    ensures
        find_color_key(b, k) matches Some(i) ==> k <= i && i + 6 <= b.len(),
    decreases b.len() - k,
{
    if k + 6 <= b.len() && !color_key_at(b, k) {
        lemma_find_color_key_range(b, k + 1);
    }
}

} // verus!
