//! Helpers for textual protocol headers.
use vstd::prelude::*;

verus! {

/// The four ASCII space characters that header fields are trimmed of.
pub open spec fn is_ascii_space(c: char) -> bool {
    c == ' ' || c == '\t' || c == '\n' || c == '\r'
}

/// A sequence without its leading ASCII space.
pub open spec fn trim_front(s: Seq<char>) -> Seq<char>
    decreases s.len(),
{
    if s.len() > 0 && is_ascii_space(s[0]) {
        trim_front(s.skip(1))
    } else {
        s
    }
}

/// A sequence without its trailing ASCII space.
pub open spec fn trim_back(s: Seq<char>) -> Seq<char>
    decreases s.len(),
{
    if s.len() > 0 && is_ascii_space(s[s.len() - 1]) {
        trim_back(s.drop_last())
    } else {
        s
    }
}

/// A sequence without leading and trailing ASCII space.
pub open spec fn trim_spec(s: Seq<char>) -> Seq<char> {
    trim_back(trim_front(s))
}

/// Whether this character counts as ASCII space.
pub fn is_asciispace(c: char) -> (r: bool)
    ensures
        r == is_ascii_space(c),
{
    c == ' ' || c == '\t' || c == '\n' || c == '\r'
}

proof fn lemma_trim_front_at(s: Seq<char>, lo: int)
    requires
        0 <= lo <= s.len(),
        forall|j: int| 0 <= j < lo ==> is_ascii_space(s[j]),
        lo == s.len() || !is_ascii_space(s[lo]),
    ensures
        trim_front(s) == s.skip(lo),
    decreases lo,
{
    if lo == 0 {
        assert(s.skip(0) =~= s);
    } else {
        assert(is_ascii_space(s[0]));
        lemma_trim_front_at(s.skip(1), lo - 1);
        assert(s.skip(1).skip(lo - 1) =~= s.skip(lo));
    }
}

proof fn lemma_trim_back_at(s: Seq<char>, hi: int)
    requires
        0 <= hi <= s.len(),
        forall|j: int| hi <= j < s.len() ==> is_ascii_space(s[j]),
        hi == 0 || !is_ascii_space(s[hi - 1]),
    ensures
        trim_back(s) == s.take(hi),
    decreases s.len() - hi,
{
    if hi == s.len() {
        assert(s.take(hi) =~= s);
    } else {
        assert(is_ascii_space(s[s.len() - 1]));
        lemma_trim_back_at(s.drop_last(), hi);
        assert(s.drop_last().take(hi) =~= s.take(hi));
    }
}

/// Returns `b` without leading and trailing ASCII space.
pub fn trim_string(b: &str) -> (r: String)
    ensures
        r@ == trim_spec(b@),
{
    let n = b.unicode_len();
    let mut lo: usize = 0;
    while lo < n && is_asciispace(b.get_char(lo))
        invariant
            lo <= n,
            n == b@.len(),
            forall|j: int| 0 <= j < lo ==> is_ascii_space(b@[j]),
        decreases n - lo,
    {
        lo = lo + 1;
    }
    let mut hi: usize = n;
    while hi > lo && is_asciispace(b.get_char(hi - 1))
        invariant
            lo <= hi <= n,
            n == b@.len(),
            forall|j: int| 0 <= j < lo ==> is_ascii_space(b@[j]),
            forall|j: int| hi <= j < n ==> is_ascii_space(b@[j]),
        decreases hi,
    {
        hi = hi - 1;
    }
    let r = b.substring_char(lo, hi).to_owned();
    proof {
        lemma_trim_front_at(b@, lo as int);
        let t = b@.skip(lo as int);
        if hi == lo {
            lemma_trim_back_at(t, 0);
        } else {
            assert(!is_ascii_space(t[hi - lo - 1]));
            lemma_trim_back_at(t, hi - lo);
        }
        assert(t.take(hi - lo) =~= b@.subrange(lo as int, hi as int));
    }
    r
}

} // verus!
