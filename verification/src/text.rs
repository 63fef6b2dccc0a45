//! Text primitives: substring occurrence and left-to-right,
//! non-overlapping pattern replacement over character sequences.

use vstd::prelude::*;
use vstd::string::StrSliceExecFns;

verus! {

/// `p` occurs in `s` at position `i`.
pub open spec fn occurs_at(s: Seq<char>, i: int, p: Seq<char>) -> bool {
    0 <= i && i + p.len() <= s.len() && s.subrange(i, i + p.len() as int) == p
}

/// `p` occurs somewhere in `s`.
pub open spec fn contains_seq(s: Seq<char>, p: Seq<char>) -> bool {
    exists|i: int| occurs_at(s, i, p)
}

/// `p` is a prefix of `s`.
pub open spec fn starts_with(s: Seq<char>, p: Seq<char>) -> bool {
    p.len() <= s.len() && s.subrange(0, p.len() as int) == p
}

/// Every occurrence of `pat` in `s`, scanned left to right without
/// overlap, replaced by `rep`; an empty pattern leaves `s` unchanged.
pub open spec fn replace_all(s: Seq<char>, pat: Seq<char>, rep: Seq<char>) -> Seq<char>
    decreases s.len(),
{
    if pat.len() == 0 || s.len() == 0 {
        s
    } else if starts_with(s, pat) {
        rep + replace_all(s.skip(pat.len() as int), pat, rep)
    } else {
        seq![s[0]] + replace_all(s.skip(1), pat, rep)
    }
}

/// Relies on `String::push`: appends the given character to the end of
/// the string, and does nothing else to it.
pub assume_specification[ String::push ](s: &mut String, c: char)
    ensures
        final(s)@ == old(s)@.push(c),
;

/// The characters of `s`, in order.
pub fn chars_of(s: &str) -> (r: Vec<char>)
    ensures
        r@ == s@,
{
    let n = s.unicode_len();
    let mut r: Vec<char> = Vec::new();
    let mut i: usize = 0;
    while i < n
        invariant
            n == s@.len(),
            i <= n,
            r@ == s@.take(i as int),
        decreases n - i,
    {
        let c = s.get_char(i);
        r.push(c);
        i = i + 1;
        proof {
            assert(r@ =~= s@.take(i as int));
        }
    }
    proof {
        assert(s@.take(n as int) =~= s@);
    }
    r
}

/// The string spelled by the given characters.
pub fn string_from_chars(v: &Vec<char>) -> (r: String)
    ensures
        r@ == v@,
{
    let mut r = String::new();
    let mut i: usize = 0;
    while i < v.len()
        invariant
            i <= v@.len(),
            r@ == v@.take(i as int),
        decreases v@.len() - i,
    {
        r.push(v[i]);
        i = i + 1;
        proof {
            assert(r@ =~= v@.take(i as int));
        }
    }
    proof {
        assert(v@.take(v@.len() as int) =~= v@);
    }
    r
}

/// Appends the characters of `src` to `dst`, in order.
pub fn append_chars(dst: &mut Vec<char>, src: &Vec<char>)
    ensures
        final(dst)@ == old(dst)@ + src@,
{
    let ghost d0 = old(dst)@;
    let mut j: usize = 0;
    proof {
        assert(d0 + src@.take(0) =~= d0);
    }
    while j < src.len()
        invariant
            j <= src@.len(),
            dst@ == d0 + src@.take(j as int),
        decreases src@.len() - j,
    {
        dst.push(src[j]);
        j = j + 1;
        proof {
            assert(dst@ =~= d0 + src@.take(j as int));
        }
    }
    proof {
        assert(d0 + src@.take(src@.len() as int) =~= d0 + src@);
    }
}

/// Whether `pat` occurs in `s` at position `i`.
pub fn match_at(s: &Vec<char>, i: usize, pat: &Vec<char>) -> (r: bool)
    requires
        i <= s@.len(),
    ensures
        r == occurs_at(s@, i as int, pat@),
{
    if s.len() - i < pat.len() {
        return false;
    }
    let mut j: usize = 0;
    while j < pat.len()
        invariant
            i + pat@.len() <= s@.len() <= usize::MAX,
            j <= pat@.len(),
            forall|k: int| 0 <= k < j ==> s@[i + k] == pat@[k],
        decreases pat@.len() - j,
    {
        if s[i + j] != pat[j] {
            proof {
                if occurs_at(s@, i as int, pat@) {
                    assert(s@.subrange(i as int, i + pat@.len() as int)[j as int]
                        == pat@[j as int]);
                    assert(s@.subrange(i as int, i + pat@.len() as int)[j as int]
                        == s@[i + j]);
                }
            }
            return false;
        }
        j = j + 1;
    }
    proof {
        assert(s@.subrange(i as int, i + pat@.len() as int) =~= pat@);
    }
    true
}

/// At a position where the pattern matches, replacement emits `rep` and
/// moves past the whole match.
pub proof fn lemma_replace_step_match(s: Seq<char>, i: int, pat: Seq<char>, rep: Seq<char>)
    requires
        pat.len() > 0,
        occurs_at(s, i, pat),
    ensures
        replace_all(s.skip(i), pat, rep) == rep + replace_all(s.skip(i + pat.len()), pat, rep),
{
    let pre = s.skip(i);
    assert(pre.subrange(0, pat.len() as int) =~= s.subrange(i, i + pat.len() as int));
    assert(starts_with(pre, pat));
    assert(pre.skip(pat.len() as int) =~= s.skip(i + pat.len()));
    assert(replace_all(pre, pat, rep) == rep + replace_all(pre.skip(pat.len() as int), pat, rep));
}

/// At a position where the pattern does not match, replacement keeps the
/// one character there and moves on by one.
pub proof fn lemma_replace_step_keep(s: Seq<char>, i: int, pat: Seq<char>, rep: Seq<char>)
    requires
        pat.len() > 0,
        0 <= i < s.len(),
        !occurs_at(s, i, pat),
    ensures
        replace_all(s.skip(i), pat, rep) == seq![s[i]] + replace_all(s.skip(i + 1), pat, rep),
{
    let pre = s.skip(i);
    if starts_with(pre, pat) {
        assert(pre.subrange(0, pat.len() as int) =~= s.subrange(i, i + pat.len() as int));
        assert(occurs_at(s, i, pat));
    }
    assert(pre[0] == s[i]);
    assert(pre.skip(1) =~= s.skip(i + 1));
    assert(replace_all(pre, pat, rep) == seq![pre[0]] + replace_all(pre.skip(1), pat, rep));
}

/// `s` with every occurrence of `pat`, scanned left to right without
/// overlap, replaced by `rep`.
pub fn replace_chars(s: &Vec<char>, pat: &Vec<char>, rep: &Vec<char>) -> (r: Vec<char>)
    requires
        pat@.len() > 0,
    ensures
        r@ == replace_all(s@, pat@, rep@),
{
    let mut out: Vec<char> = Vec::new();
    let mut i: usize = 0;
    proof {
        assert(s@.skip(0) =~= s@);
        assert(Seq::<char>::empty() + replace_all(s@, pat@, rep@)
            =~= replace_all(s@, pat@, rep@));
    }
    while i < s.len()
        invariant
            pat@.len() > 0,
            i <= s@.len(),
            replace_all(s@, pat@, rep@) == out@ + replace_all(s@.skip(i as int), pat@, rep@),
        decreases s@.len() - i,
    {
        let ghost i0 = i as int;
        let ghost out0 = out@;
        if match_at(s, i, pat) {
            append_chars(&mut out, rep);
            i = i + pat.len();
            proof {
                lemma_replace_step_match(s@, i0, pat@, rep@);
                assert(out0 + (rep@ + replace_all(s@.skip(i as int), pat@, rep@))
                    =~= (out0 + rep@) + replace_all(s@.skip(i as int), pat@, rep@));
            }
        } else {
            out.push(s[i]);
            i = i + 1;
            proof {
                lemma_replace_step_keep(s@, i0, pat@, rep@);
                assert(out@ =~= out0 + seq![s@[i0]]);
                assert(out0 + (seq![s@[i0]] + replace_all(s@.skip(i as int), pat@, rep@))
                    =~= (out0 + seq![s@[i0]]) + replace_all(s@.skip(i as int), pat@, rep@));
            }
        }
    }
    proof {
        assert(s@.skip(s@.len() as int) =~= Seq::<char>::empty());
        assert(out@ + Seq::<char>::empty() =~= out@);
    }
    out
}

/// Where the pattern nowhere occurs, replacement changes nothing.
pub proof fn lemma_replace_none(s: Seq<char>, pat: Seq<char>, rep: Seq<char>)
    requires
        !contains_seq(s, pat),
    ensures
        replace_all(s, pat, rep) == s,
    decreases s.len(),
{
    if pat.len() == 0 || s.len() == 0 {
    } else {
        if starts_with(s, pat) {
            assert(occurs_at(s, 0, pat));
            assert(false);
        }
        assert(!contains_seq(s.skip(1), pat)) by {
            if contains_seq(s.skip(1), pat) {
                let i = choose|i: int| occurs_at(s.skip(1), i, pat);
                assert(s.subrange(i + 1, i + 1 + pat.len() as int)
                    =~= s.skip(1).subrange(i, i + pat.len() as int));
                assert(occurs_at(s, i + 1, pat));
            }
        }
        lemma_replace_none(s.skip(1), pat, rep);
        assert(seq![s[0]] + s.skip(1) =~= s);
    }
}

/// Where no occurrence of the pattern starts within the first part of a
/// concatenation, replacement leaves that part as it stands and works on
/// the rest alone.
pub proof fn lemma_replace_skip_clear(a: Seq<char>, b: Seq<char>, pat: Seq<char>, rep: Seq<char>)
    requires
        pat.len() > 0,
        forall|i: int| 0 <= i < a.len() ==> !occurs_at(a + b, i, pat),
    ensures
        replace_all(a + b, pat, rep) == a + replace_all(b, pat, rep),
    decreases a.len(),
{
    if a.len() == 0 {
        assert(a + b =~= b);
        assert(a + replace_all(b, pat, rep) =~= replace_all(b, pat, rep));
    } else {
        let s = a + b;
        assert(!occurs_at(s, 0, pat));
        if starts_with(s, pat) {
            assert(occurs_at(s, 0, pat));
        }
        assert(s.len() > 0);
        assert(s.skip(1) =~= a.skip(1) + b);
        assert forall|i: int| 0 <= i < a.skip(1).len() implies !occurs_at(
            a.skip(1) + b,
            i,
            pat,
        ) by {
            if occurs_at(a.skip(1) + b, i, pat) {
                assert(s.subrange(i + 1, i + 1 + pat.len() as int)
                    =~= (a.skip(1) + b).subrange(i, i + pat.len() as int));
                assert(occurs_at(s, i + 1, pat));
            }
        }
        lemma_replace_skip_clear(a.skip(1), b, pat, rep);
        assert(replace_all(s, pat, rep) == seq![s[0]] + replace_all(s.skip(1), pat, rep));
        assert(s[0] == a[0]);
        assert(seq![a[0]] + (a.skip(1) + replace_all(b, pat, rep))
            =~= a + replace_all(b, pat, rep));
    }
}

/// `s` with every occurrence of `pat` replaced by `rep`, as one string.
pub fn replace_str(s: &str, pat: &str, rep: &str) -> (r: String)
    requires
        pat@.len() > 0,
    ensures
        r@ == replace_all(s@, pat@, rep@),
{
    let sv = chars_of(s);
    let pv = chars_of(pat);
    let rv = chars_of(rep);
    let res = replace_chars(&sv, &pv, &rv);
    string_from_chars(&res)
}

} // verus!
