//! Interpretation of a yes/no confirmation answer read from the user:
//! blank space around the answer is ignored, and `y` or `yes` in any
//! letter case affirms.

use vstd::prelude::*;

verus! {

/// Whether a character is blank space around an answer.
pub open spec fn is_ws(c: char) -> bool {
    c == ' ' || c == '\t' || c == '\n' || c == '\r'
}

/// The answer with leading blank space removed.
pub open spec fn trim_front(s: Seq<char>) -> Seq<char>
    decreases s.len(),
{
    if s.len() > 0 && is_ws(s[0]) {
        trim_front(s.drop_first())
    } else {
        s
    }
}

/// The answer with trailing blank space removed.
pub open spec fn trim_back(s: Seq<char>) -> Seq<char>
    decreases s.len(),
{
    if s.len() > 0 && is_ws(s.last()) {
        trim_back(s.drop_last())
    } else {
        s
    }
}

/// The answer with blank space removed on both sides.
pub open spec fn trimmed(s: Seq<char>) -> Seq<char> {
    trim_back(trim_front(s))
}

/// Whether a trimmed answer affirms: `y` or `yes`, in any letter case.
pub open spec fn affirmative_chars(t: Seq<char>) -> bool {
    (t.len() == 1 && (t[0] == 'y' || t[0] == 'Y')) || (t.len() == 3 && (t[0] == 'y' || t[0]
        == 'Y') && (t[1] == 'e' || t[1] == 'E') && (t[2] == 's' || t[2] == 'S'))
}

/// Whether an answer affirms.
pub open spec fn spec_is_affirmative(s: Seq<char>) -> bool {
    affirmative_chars(trimmed(s))
}

/// Dropping leading blank space is taking the suffix from the first
/// non-blank position.
proof fn lemma_trim_front_skip(s: Seq<char>, k: int)
    requires
        0 <= k <= s.len(),
        forall|j: int| 0 <= j < k ==> is_ws(#[trigger] s[j]),
        k < s.len() ==> !is_ws(s[k]),
    ensures
        trim_front(s) == s.skip(k),
    decreases k,
{
    if k == 0 {
        assert(s.skip(0) =~= s);
    } else {
        assert(is_ws(s[0]));
        lemma_trim_front_skip(s.drop_first(), k - 1);
        assert(s.drop_first().skip(k - 1) =~= s.skip(k));
    }
}

/// Dropping trailing blank space is taking the prefix up to the last
/// non-blank position.
proof fn lemma_trim_back_take(s: Seq<char>, k: int)
    requires
        0 <= k <= s.len(),
        forall|j: int| k <= j < s.len() ==> is_ws(#[trigger] s[j]),
        k > 0 ==> !is_ws(s[k - 1]),
    ensures
        trim_back(s) == s.take(k),
    decreases s.len() - k,
{
    if k == s.len() {
        assert(s.take(k) =~= s);
    } else {
        assert(is_ws(s.last()));
        lemma_trim_back_take(s.drop_last(), k);
        assert(s.drop_last().take(k) =~= s.take(k));
    }
}

/// Whether a character is blank space around an answer.
fn is_ws_exec(c: char) -> (r: bool)
    ensures
        r == is_ws(c),
{
    c == ' ' || c == '\t' || c == '\n' || c == '\r'
}

/// Whether the answer affirms: `y` or `yes` in any letter case, blank
/// space around it ignored. Anything else declines.
pub fn is_affirmative(input: &str) -> (r: bool)
    ensures
        r == spec_is_affirmative(input@),
{
    let n = input.unicode_len();
    let mut start: usize = 0;
    while start < n && is_ws_exec(input.get_char(start))
        invariant
            0 <= start <= n,
            n == input@.len(),
            forall|j: int| 0 <= j < start ==> is_ws(#[trigger] input@[j]),
        decreases n - start,
    {
        start = start + 1;
    }
    proof {
        lemma_trim_front_skip(input@, start as int);
    }
    if start == n {
        proof {
            assert(input@.skip(n as int).len() == 0);
            assert(trim_back(input@.skip(n as int)) == input@.skip(n as int));
        }
        return false;
    }
    let mut end: usize = n;
    while end > start + 1 && is_ws_exec(input.get_char(end - 1))
        invariant
            start < end <= n,
            n == input@.len(),
            forall|j: int| end <= j < n ==> is_ws(#[trigger] input@[j]),
        decreases end,
    {
        end = end - 1;
    }
    if is_ws_exec(input.get_char(end - 1)) {
        proof {
            assert(end == start + 1);
            assert(forall|j: int|
                0 <= j < input@.skip(start as int).len() ==> is_ws(
                    #[trigger] input@.skip(start as int)[j],
                ));
            lemma_trim_back_take(input@.skip(start as int), 0);
            assert(trimmed(input@).len() == 0);
        }
        return false;
    }
    let ghost t = trimmed(input@);
    proof {
        lemma_trim_back_take(input@.skip(start as int), end - start);
        assert(t == input@.skip(start as int).take(end - start));
        assert(t.len() == end - start);
        assert(forall|j: int| 0 <= j < t.len() ==> #[trigger] t[j] == input@[start + j]);
    }
    let len = end - start;
    if len == 1 {
        let c0 = input.get_char(start);
        c0 == 'y' || c0 == 'Y'
    } else if len == 3 {
        let c0 = input.get_char(start);
        let c1 = input.get_char(start + 1);
        let c2 = input.get_char(start + 2);
        (c0 == 'y' || c0 == 'Y') && (c1 == 'e' || c1 == 'E') && (c2 == 's' || c2 == 'S')
    } else {
        false
    }
}

} // verus!
