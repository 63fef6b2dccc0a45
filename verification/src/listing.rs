//! Repository listing: the listing-request URL for a page, and the
//! resolution of an archive-URL template into a concrete archive URL.

use vstd::prelude::*;
use vstd::string::StringExecFns;
use crate::text::append_chars;
use crate::text::chars_of;
use crate::text::replace_chars;
use crate::text::string_from_chars;
use crate::text::replace_all;

verus! {

/// One entry of a listing page: an archive-URL template and the
/// repository's default branch.
#[derive(Debug, Clone)]
pub struct RepoListing {
    pub archive_url: String,
    pub default_branch: String,
}

/// The archive-format placeholder token that listing entries carry.
pub open spec fn format_token() -> Seq<char> {
    seq!['{', 'a', 'r', 'c', 'h', 'i', 'v', 'e', '_', 'f', 'o', 'r', 'm', 'a', 't', '}']
}

/// The ref placeholder token that listing entries carry.
pub open spec fn ref_token() -> Seq<char> {
    seq!['{', '/', 'r', 'e', 'f', '}']
}

/// The fixed archive format asked of the platform.
pub open spec fn zipball_text() -> Seq<char> {
    seq!['z', 'i', 'p', 'b', 'a', 'l', 'l']
}

/// The concrete archive URL for a template and a default branch: the
/// format placeholder becomes `zipball`, the ref placeholder becomes
/// `/` followed by the branch.
pub open spec fn resolved_url(template: Seq<char>, branch: Seq<char>) -> Seq<char> {
    replace_all(
        replace_all(template, format_token(), zipball_text()),
        ref_token(),
        seq!['/'] + branch,
    )
}

/// Substitutes both placeholders of one archive-URL template.
pub fn resolve_archive_url(template: &str, default_branch: &str) -> (r: String)
    ensures
        r@ == resolved_url(template@, default_branch@),
{
    let tv = chars_of(template);
    let fmt = chars_of("{archive_format}");
    let zip = chars_of("zipball");
    let refv = chars_of("{/ref}");
    proof {
        reveal_strlit("{archive_format}");
        reveal_strlit("zipball");
        reveal_strlit("{/ref}");
        assert(fmt@ =~= format_token());
        assert(zip@ =~= zipball_text());
        assert(refv@ =~= ref_token());
    }
    let step1 = replace_chars(&tv, &fmt, &zip);
    let mut rep: Vec<char> = Vec::new();
    rep.push('/');
    let bv = chars_of(default_branch);
    append_chars(&mut rep, &bv);
    proof {
        assert(rep@ =~= seq!['/'] + default_branch@);
    }
    let step2 = replace_chars(&step1, &refv, &rep);
    string_from_chars(&step2)
}

/// Resolves every entry of one listing page to its archive URL, in order.
pub fn resolve_listing(entries: &Vec<RepoListing>) -> (r: Vec<String>)
    ensures
        r@.len() == entries@.len(),
        forall|i: int|
            0 <= i < entries@.len() ==> r@[i]@ == resolved_url(
                entries@[i].archive_url@,
                entries@[i].default_branch@,
            ),
{
    let mut r: Vec<String> = Vec::new();
    let mut i: usize = 0;
    while i < entries.len()
        invariant
            i <= entries@.len(),
            r@.len() == i,
            forall|k: int|
                0 <= k < i ==> r@[k]@ == resolved_url(
                    entries@[k].archive_url@,
                    entries@[k].default_branch@,
                ),
        decreases entries@.len() - i,
    {
        let e = &entries[i];
        let url = resolve_archive_url(e.archive_url.as_str(), e.default_branch.as_str());
        r.push(url);
        i = i + 1;
    }
    r
}

/// No opening-brace character, the mark of a placeholder token, occurs
/// in `s`.
pub open spec fn brace_free(s: Seq<char>) -> bool {
    forall|i: int| 0 <= i < s.len() ==> (#[trigger] s[i]) != '{'
}

/// A brace-free text holds no token that opens with a brace.
proof fn lemma_brace_guard(s: Seq<char>, tok: Seq<char>)
    requires
        tok.len() > 0,
        tok[0] == '{',
        brace_free(s),
    ensures
        !crate::text::contains_seq(s, tok),
{
    if crate::text::contains_seq(s, tok) {
        let i = choose|i: int| crate::text::occurs_at(s, i, tok);
        assert(s.subrange(i, i + tok.len() as int)[0] == s[i]);
        assert(s[i] == tok[0]);
    }
}

/// Brace-freedom carries over concatenation.
proof fn lemma_brace_free_concat(a: Seq<char>, b: Seq<char>)
    requires
        brace_free(a),
        brace_free(b),
    ensures
        brace_free(a + b),
{
    assert forall|i: int| 0 <= i < (a + b).len() implies ((a + b)[i]) != '{' by {
        if i < a.len() {
            assert((a + b)[i] == a[i]);
        } else {
            assert((a + b)[i] == b[i - a.len()]);
        }
    }
}

/// In a brace-free prefix of a concatenation, no brace-opened token
/// starts.
proof fn lemma_clear_prefix(a: Seq<char>, b: Seq<char>, tok: Seq<char>)
    requires
        tok.len() > 0,
        tok[0] == '{',
        brace_free(a),
    ensures
        forall|i: int| 0 <= i < a.len() ==> !crate::text::occurs_at(a + b, i, tok),
{
    assert forall|i: int| 0 <= i < a.len() implies !crate::text::occurs_at(a + b, i, tok) by {
        if crate::text::occurs_at(a + b, i, tok) {
            assert((a + b).subrange(i, i + tok.len() as int)[0] == (a + b)[i]);
            assert((a + b)[i] == a[i]);
        }
    }
}

/// Placeholder substitution: in a template whose only braces are the
/// two placeholder tokens themselves, standing side by side, resolution
/// yields the surrounding text with `zipball` and `/` plus the branch in
/// the tokens' place, and neither placeholder token occurs in the
/// result. A branch or template part carrying a brace of its own is
/// left out: substitution could then fabricate a fresh token.
pub proof fn lemma_placeholder_substitution(p: Seq<char>, q: Seq<char>, branch: Seq<char>)
    requires
        brace_free(p),
        brace_free(q),
        brace_free(branch),
    ensures
        resolved_url(p + format_token() + ref_token() + q, branch)
            == p + zipball_text() + seq!['/'] + branch + q,
        !crate::text::contains_seq(
            resolved_url(p + format_token() + ref_token() + q, branch),
            format_token(),
        ),
        !crate::text::contains_seq(
            resolved_url(p + format_token() + ref_token() + q, branch),
            ref_token(),
        ),
{
    let fmt = format_token();
    let rt = ref_token();
    let zip = zipball_text();
    let rep2 = seq!['/'] + branch;
    let mid = rt + q;
    let t = p + fmt + rt + q;
    assert(brace_free(zip));
    assert(brace_free(rt.skip(1)));
    assert(brace_free(seq!['/']));

    assert(t =~= p + (fmt + mid));
    lemma_clear_prefix(p, fmt + mid, fmt);
    crate::text::lemma_replace_skip_clear(p, fmt + mid, fmt, zip);
    assert((fmt + mid).subrange(0, fmt.len() as int) =~= fmt);
    assert(crate::text::starts_with(fmt + mid, fmt));
    assert((fmt + mid).skip(fmt.len() as int) =~= mid);
    assert(replace_all(fmt + mid, fmt, zip)
        == zip + replace_all((fmt + mid).skip(fmt.len() as int), fmt, zip));
    lemma_brace_free_concat(rt.skip(1), q);
    assert(mid.skip(1) =~= rt.skip(1) + q);
    assert(!crate::text::contains_seq(mid, fmt)) by {
        if crate::text::contains_seq(mid, fmt) {
            let i = choose|i: int| crate::text::occurs_at(mid, i, fmt);
            if i == 0 {
                assert(mid.subrange(0, fmt.len() as int)[1] == mid[1]);
                assert(mid[1] == rt[1]);
                assert(false);
            } else {
                assert(mid.subrange(i, i + fmt.len() as int)[0] == mid[i]);
                assert(mid.skip(1)[i - 1] == mid[i]);
                assert(false);
            }
        }
    }
    crate::text::lemma_replace_none(mid, fmt, zip);
    let step1 = replace_all(t, fmt, zip);
    assert(step1 == p + (zip + mid));

    let a2 = p + zip;
    assert(step1 =~= a2 + mid);
    lemma_brace_free_concat(p, zip);
    lemma_clear_prefix(a2, mid, rt);
    crate::text::lemma_replace_skip_clear(a2, mid, rt, rep2);
    assert(mid.subrange(0, rt.len() as int) =~= rt);
    assert(crate::text::starts_with(mid, rt));
    assert(mid.skip(rt.len() as int) =~= q);
    assert(replace_all(mid, rt, rep2)
        == rep2 + replace_all(mid.skip(rt.len() as int), rt, rep2));
    lemma_brace_guard(q, rt);
    crate::text::lemma_replace_none(q, rt, rep2);
    let out = resolved_url(t, branch);
    assert(out == a2 + (rep2 + q));
    assert(out =~= p + zip + seq!['/'] + branch + q);

    lemma_brace_free_concat(seq!['/'], branch);
    lemma_brace_free_concat(rep2, q);
    lemma_brace_free_concat(a2, rep2 + q);
    lemma_brace_guard(out, fmt);
    lemma_brace_guard(out, rt);
}

/// The decimal digit character for a value below ten.
pub open spec fn dec_digit(n: nat) -> char {
    if n == 0 {
        '0'
    } else if n == 1 {
        '1'
    } else if n == 2 {
        '2'
    } else if n == 3 {
        '3'
    } else if n == 4 {
        '4'
    } else if n == 5 {
        '5'
    } else if n == 6 {
        '6'
    } else if n == 7 {
        '7'
    } else if n == 8 {
        '8'
    } else {
        '9'
    }
}

/// The decimal spelling of `n`, most significant digit first, with no
/// leading zero except for `n == 0` itself.
pub open spec fn dec_rep(n: nat) -> Seq<char>
    decreases n,
{
    if n < 10 {
        seq![dec_digit(n)]
    } else {
        dec_rep(n / 10).push(dec_digit(n % 10))
    }
}

/// The value a decimal digit character spells, digits read as zero to
/// nine and anything else as zero.
pub open spec fn digit_value(c: char) -> nat {
    if c == '1' {
        1
    } else if c == '2' {
        2
    } else if c == '3' {
        3
    } else if c == '4' {
        4
    } else if c == '5' {
        5
    } else if c == '6' {
        6
    } else if c == '7' {
        7
    } else if c == '8' {
        8
    } else if c == '9' {
        9
    } else {
        0
    }
}

/// The number a digit string spells, most significant digit first.
pub open spec fn dec_value(s: Seq<char>) -> nat
    decreases s.len(),
{
    if s.len() == 0 {
        0
    } else {
        dec_value(s.take(s.len() - 1)) * 10 + digit_value(s.last())
    }
}

/// The decimal spelling is faithful: it decodes back to the number it
/// was made from, and a positive number never starts with a zero.
pub proof fn lemma_dec_rep_value(n: nat)
    ensures
        dec_value(dec_rep(n)) == n,
        dec_rep(n).len() >= 1,
        n >= 1 ==> dec_rep(n)[0] != '0',
    decreases n,
{
    if n < 10 {
        let s = dec_rep(n);
        assert(s.take(s.len() - 1) =~= Seq::<char>::empty());
        assert(s.last() == dec_digit(n));
        assert(dec_value(Seq::<char>::empty()) == 0);
        assert(dec_value(s) == dec_value(s.take(s.len() - 1)) * 10 + digit_value(s.last()));
        assert(digit_value(dec_digit(n)) == n);
    } else {
        lemma_dec_rep_value(n / 10);
        let s = dec_rep(n);
        let head = dec_rep(n / 10);
        assert(s.take(s.len() - 1) =~= head);
        assert(s.last() == dec_digit(n % 10));
        assert(digit_value(dec_digit(n % 10)) == n % 10);
        assert(dec_value(s) == dec_value(s.take(s.len() - 1)) * 10 + digit_value(s.last()));
        assert(dec_value(s) == (n / 10) * 10 + n % 10);
        assert(s[0] == head[0]);
    }
}

fn dec_digit_char(n: u32) -> (c: char)
    requires
        n < 10,
    ensures
        c == dec_digit(n as nat),
{
    if n == 0 {
        '0'
    } else if n == 1 {
        '1'
    } else if n == 2 {
        '2'
    } else if n == 3 {
        '3'
    } else if n == 4 {
        '4'
    } else if n == 5 {
        '5'
    } else if n == 6 {
        '6'
    } else if n == 7 {
        '7'
    } else if n == 8 {
        '8'
    } else {
        '9'
    }
}

/// The decimal digits of `n`, as characters.
pub fn dec_chars(n: u32) -> (r: Vec<char>)
    ensures
        r@ == dec_rep(n as nat),
    decreases n,
{
    if n < 10 {
        let mut v: Vec<char> = Vec::new();
        v.push(dec_digit_char(n));
        proof {
            assert(v@ =~= seq![dec_digit(n as nat)]);
        }
        v
    } else {
        let mut v = dec_chars(n / 10);
        v.push(dec_digit_char(n % 10));
        v
    }
}

/// The listing-endpoint URL for one page: up to one hundred entries,
/// owned repositories only, sorted by most recent update.
pub open spec fn listing_url(page: nat) -> Seq<char> {
    "https://api.github.com/user/repos?per_page=100&type=owner&page="@ + dec_rep(page)
        + "&sort=updated"@
}

/// Builds the listing-endpoint URL for a one-based page number.
pub fn listing_request_url(page: u32) -> (r: String)
    requires
        page >= 1,
    ensures
        r@ == listing_url(page as nat),
{
    let mut s = String::from_str(
        "https://api.github.com/user/repos?per_page=100&type=owner&page=",
    );
    let digits = dec_chars(page);
    let ds = string_from_chars(&digits);
    s.append(ds.as_str());
    s.append("&sort=updated");
    s
}

} // verus!
