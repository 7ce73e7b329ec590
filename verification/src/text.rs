//! Small operations on text that the rest of the library shares.

use vstd::prelude::*;
use vstd::string::StrSliceExecFns;
use vstd::string::StringExecFns;

verus! {

/// Whether `pat` stands in `s` at index `i`.
pub open spec fn occurs_at(s: Seq<char>, pat: Seq<char>, i: int) -> bool {
    0 <= i && i + pat.len() <= s.len() && s.subrange(i, i + pat.len()) == pat
}

/// Whether `pat` stands somewhere in `s`.
pub open spec fn shows(s: Seq<char>, pat: Seq<char>) -> bool {
    exists|i: int| occurs_at(s, pat, i)
}

/// What stands in a text stands in every text that holds it.
pub proof fn lemma_shows_inside(front: Seq<char>, s: Seq<char>, back: Seq<char>, pat: Seq<char>)
    requires
        shows(s, pat),
    ensures
        shows(front + s + back, pat),
{
    let i = choose|i: int| occurs_at(s, pat, i);
    let whole = front + s + back;
    assert(whole.subrange(front.len() + i, front.len() + i + pat.len()) =~= s.subrange(
        i,
        i + pat.len(),
    ));
    assert(occurs_at(whole, pat, front.len() + i));
}

/// What stands in a text and starts with something else than a space
/// stands in the text without its leading spaces.
pub proof fn lemma_shows_trimmed(s: Seq<char>, pat: Seq<char>)
    requires
        shows(s, pat),
        pat.len() > 0,
        pat[0] != ' ',
    ensures
        shows(trim_start(s), pat),
{
    let i = choose|i: int| occurs_at(s, pat, i);
    lemma_leading_spaces(s);
    let n = leading_spaces(s) as int;
    assert(s[i] == s.subrange(i, i + pat.len())[0]);
    if i < n {
        assert(s[i] == ' ');
    }
    assert(trim_start(s).subrange(i - n, i - n + pat.len()) =~= s.subrange(i, i + pat.len()));
    assert(occurs_at(trim_start(s), pat, i - n));
}

/// `n` spaces.
pub open spec fn spaces(n: nat) -> Seq<char> {
    Seq::new(n, |i: int| ' ')
}

/// How many spaces `s` starts with.
pub open spec fn leading_spaces(s: Seq<char>) -> nat
    decreases s.len(),
{
    if s.len() > 0 && s[0] == ' ' {
        1 + leading_spaces(s.drop_first())
    } else {
        0
    }
}

/// `s` without the spaces it starts with.
pub open spec fn trim_start(s: Seq<char>) -> Seq<char> {
    s.skip(leading_spaces(s) as int)
}

/// See [`leading_spaces`]: the spaces at the start, up to the first
/// character that is none.
pub proof fn lemma_leading_spaces(s: Seq<char>)
    ensures
        leading_spaces(s) <= s.len(),
        forall|i: int| 0 <= i < leading_spaces(s) ==> s[i] == ' ',
        leading_spaces(s) < s.len() ==> s[leading_spaces(s) as int] != ' ',
    decreases s.len(),
{
    if s.len() > 0 && s[0] == ' ' {
        let t = s.drop_first();
        lemma_leading_spaces(t);
        assert forall|i: int| 0 <= i < leading_spaces(s) implies s[i] == ' ' by {
            if i > 0 {
                assert(s[i] == t[i - 1]);
            }
        }
        if leading_spaces(s) < s.len() {
            assert(s[leading_spaces(s) as int] == t[leading_spaces(t) as int]);
        }
    }
}

/// The number of leading spaces is the one index below which all is space and
/// at which, if it is inside `s`, something else stands.
pub proof fn lemma_leading_spaces_unique(s: Seq<char>, n: nat)
    requires
        n <= s.len(),
        forall|i: int| 0 <= i < n ==> s[i] == ' ',
        n < s.len() ==> s[n as int] != ' ',
    ensures
        leading_spaces(s) == n,
{
    lemma_leading_spaces(s);
    let m = leading_spaces(s);
    if m < n {
        assert(s[m as int] == ' ');
    } else if n < m {
        assert(s[n as int] == ' ');
    }
}

/// Trimming a concatenation: the spaces in front of `a + b` are those of `a`,
/// and those of `b` too where `a` holds nothing else.
pub proof fn lemma_trim_start_concat(a: Seq<char>, b: Seq<char>)
    ensures
        trim_start(a).len() > 0 ==> trim_start(a + b) == trim_start(a) + b,
        trim_start(a).len() == 0 ==> trim_start(a + b) == trim_start(b),
{
    lemma_leading_spaces(a);
    lemma_leading_spaces(b);
    let n = leading_spaces(a);
    if n < a.len() {
        assert((a + b)[n as int] == a[n as int]);
        assert forall|i: int| 0 <= i < n implies (a + b)[i] == ' ' by {
            assert((a + b)[i] == a[i]);
        }
        lemma_leading_spaces_unique(a + b, n);
        assert(trim_start(a + b) =~= trim_start(a) + b);
    } else {
        let m = leading_spaces(b);
        assert forall|i: int| 0 <= i < n + m implies (a + b)[i] == ' ' by {
            if i < n {
                assert((a + b)[i] == a[i]);
            } else {
                assert((a + b)[i] == b[i - n]);
            }
        }
        if n + m < (a + b).len() {
            assert((a + b)[(n + m) as int] == b[m as int]);
        }
        lemma_leading_spaces_unique(a + b, n + m);
        assert(trim_start(a + b) =~= trim_start(b));
    }
}

/// What each of the words holds.
pub open spec fn word_views(v: Seq<Vec<char>>) -> Seq<Seq<char>> {
    Seq::new(v.len(), |i: int| v[i]@)
}

/// What each of the lines holds.
pub open spec fn line_views(v: Seq<String>) -> Seq<Seq<char>> {
    Seq::new(v.len(), |i: int| v[i]@)
}

/// The characters of `s`.
pub fn to_chars(s: &str) -> (v: Vec<char>)
    ensures
        v@ == s@,
{
    let mut v: Vec<char> = Vec::new();
    for c in it: s.chars()
        invariant
            v@ == it.seq().take(it.index() as int),
            it.seq() == s@,
    {
        v.push(c);
    }
    v
}

/// `String::push` of std: the character is added at the end.
#[verifier::external_body]
fn push_char(s: &mut String, c: char)
    ensures
        final(s)@ == old(s)@.push(c),
{
    s.push(c)
}

/// The text made of the characters `v[from..to]`.
pub fn from_chars(v: &Vec<char>, from: usize, to: usize) -> (s: String)
    requires
        from <= to <= v.len(),
    ensures
        s@ == v@.subrange(from as int, to as int),
{
    let mut s = String::new();
    let mut i = from;
    while i < to
        invariant
            from <= i <= to <= v.len(),
            s@ == v@.subrange(from as int, i as int),
        decreases to - i,
    {
        push_char(&mut s, v[i]);
        i += 1;
        assert(v@.subrange(from as int, i as int) == v@.subrange(from as int, i - 1).push(
            v@[i - 1],
        ));
    }
    s
}

/// Appends `n` spaces to `s`.
pub fn push_spaces(s: &mut String, n: usize)
    ensures
        final(s)@ == old(s)@ + spaces(n as nat),
{
    let mut i: usize = 0;
    while i < n
        invariant
            i <= n,
            s@ == old(s)@ + spaces(i as nat),
        decreases n - i,
    {
        push_char(s, ' ');
        i += 1;
        assert(s@ =~= old(s)@ + spaces(i as nat));
    }
}

/// `s` without the spaces it starts with.
pub fn trim_start_spaces(s: &str) -> (r: &str)
    ensures
        r@ == trim_start(s@),
{
    let n = s.unicode_len();
    let mut i: usize = 0;
    while i < n && s.get_char(i) == ' '
        invariant
            i <= n == s@.len(),
            forall|j: int| 0 <= j < i ==> s@[j] == ' ',
        decreases n - i,
    {
        i += 1;
    }
    proof {
        lemma_leading_spaces_unique(s@, i as nat);
    }
    let r = s.substring_char(i, n);
    assert(r@ =~= trim_start(s@));
    r
}

/// Joining text to the end of a run joins it to the end of the run's last
/// part.
pub proof fn lemma_join_assoc(a: Seq<char>, b: Seq<char>, c: Seq<char>)
    ensures
        (a + b) + c == a + (b + c),
{
    assert((a + b) + c =~= a + (b + c));
}

/// Whether two texts hold the same characters.
pub fn same_text(a: &str, b: &str) -> (r: bool)
    ensures
        r == (a@ == b@),
{
    let x = to_chars(a);
    let y = to_chars(b);
    if x.len() != y.len() {
        return false;
    }
    let mut i: usize = 0;
    while i < x.len()
        invariant
            i <= x.len() == y.len(),
            x@ == a@,
            y@ == b@,
            forall|j: int| 0 <= j < i ==> x@[j] == y@[j],
        decreases x.len() - i,
    {
        if x[i] != y[i] {
            assert(x@[i as int] != y@[i as int]);
            return false;
        }
        i += 1;
    }
    assert(x@ =~= y@);
    true
}

} // verus!
