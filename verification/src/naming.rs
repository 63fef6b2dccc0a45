//! Naming of downloaded archives: the human-readable repository
//! identifier derived from an archive URL, and its sanitization into a
//! filesystem-safe file name.

use vstd::prelude::*;
use vstd::string::StringExecFns;
use crate::text::chars_of;
use crate::text::replace_chars;
use crate::text::string_from_chars;
use crate::text::replace_all;

verus! {

/// The listing API's repository prefix, stripped from archive URLs
/// when deriving an identifier.
pub open spec fn api_repos_prefix() -> Seq<char> {
    "https://api.github.com/repos/"@
}

/// The archive path segment that separates repository and branch.
pub open spec fn zipball_segment() -> Seq<char> {
    "/zipball/"@
}

/// The identifier shown for an archive URL: the API prefix removed and
/// the archive segment replaced by `@`, giving `owner/name@branch`.
pub open spec fn repo_id_of(url: Seq<char>) -> Seq<char> {
    replace_all(
        replace_all(url, api_repos_prefix(), Seq::<char>::empty()),
        zipball_segment(),
        seq!['@'],
    )
}

/// Derives the human-readable repository identifier from an archive URL.
pub fn repo_identifier(url: &str) -> (r: String)
    ensures
        r@ == repo_id_of(url@),
{
    proof {
        reveal_strlit("https://api.github.com/repos/");
        reveal_strlit("/zipball/");
    }
    let uv = chars_of(url);
    let prefix = chars_of("https://api.github.com/repos/");
    let empty: Vec<char> = Vec::new();
    let step1 = replace_chars(&uv, &prefix, &empty);
    let seg = chars_of("/zipball/");
    let mut at: Vec<char> = Vec::new();
    at.push('@');
    proof {
        assert(at@ =~= seq!['@']);
    }
    let step2 = replace_chars(&step1, &seg, &at);
    string_from_chars(&step2)
}

/// A character as it may appear in a file name: path separators and
/// other reserved characters become underscores.
pub open spec fn sanitize_char(c: char) -> char {
    if c == '/' || c == '@' || c == ':' || c == '.' || c == ' ' {
        '_'
    } else {
        c
    }
}

/// The identifier with every reserved character replaced.
pub open spec fn sanitized(s: Seq<char>) -> Seq<char> {
    s.map_values(|c: char| sanitize_char(c))
}

/// The file name a repository's archive is stored under.
pub open spec fn zip_file_name(id: Seq<char>) -> Seq<char> {
    sanitized(id) + ".zip"@
}

fn sanitize_char_value(c: char) -> (r: char)
    ensures
        r == sanitize_char(c),
{
    if c == '/' || c == '@' || c == ':' || c == '.' || c == ' ' {
        '_'
    } else {
        c
    }
}

/// Replaces every reserved character of the identifier by an underscore.
pub fn sanitize_identifier(id: &str) -> (r: String)
    ensures
        r@ == sanitized(id@),
{
    let iv = chars_of(id);
    let mut out: Vec<char> = Vec::new();
    let mut i: usize = 0;
    while i < iv.len()
        invariant
            iv@ == id@,
            i <= iv@.len(),
            out@ == sanitized(id@.take(i as int)),
        decreases iv@.len() - i,
    {
        out.push(sanitize_char_value(iv[i]));
        i = i + 1;
        proof {
            assert(out@ =~= sanitized(id@.take(i as int)));
        }
    }
    proof {
        assert(sanitized(id@.take(id@.len() as int)) =~= sanitized(id@));
    }
    string_from_chars(&out)
}

/// The sanitized identifier with the archive extension appended.
pub fn archive_file_name(id: &str) -> (r: String)
    ensures
        r@ == zip_file_name(id@),
{
    let base = sanitize_identifier(id);
    let mut out = base;
    out.append(".zip");
    out
}

/// The character `c` occurs nowhere in `s`.
pub open spec fn free_of(s: Seq<char>, c: char) -> bool {
    forall|i: int| 0 <= i < s.len() ==> (#[trigger] s[i]) != c
}

/// Freedom from a character carries over concatenation.
proof fn lemma_free_of_concat(a: Seq<char>, b: Seq<char>, c: char)
    requires
        free_of(a, c),
        free_of(b, c),
    ensures
        free_of(a + b, c),
{
    assert forall|i: int| 0 <= i < (a + b).len() implies ((a + b)[i]) != c by {
        if i < a.len() {
            assert((a + b)[i] == a[i]);
        } else {
            assert((a + b)[i] == b[i - a.len()]);
        }
    }
}

/// A text free of some character of a token holds no occurrence of the
/// token.
proof fn lemma_no_token_with_char(s: Seq<char>, tok: Seq<char>, k: int, c: char)
    requires
        0 <= k < tok.len(),
        tok[k] == c,
        free_of(s, c),
    ensures
        !crate::text::contains_seq(s, tok),
{
    if crate::text::contains_seq(s, tok) {
        let i = choose|i: int| crate::text::occurs_at(s, i, tok);
        assert(s.subrange(i, i + tok.len() as int)[k] == tok[k]);
        assert(s.subrange(i, i + tok.len() as int)[k] == s[i + k]);
    }
}

/// Stripping the prefix from a colon-free remainder leaves exactly the
/// remainder.
proof fn lemma_prefix_strip(rest: Seq<char>)
    requires
        free_of(rest, ':'),
    ensures
        replace_all(api_repos_prefix() + rest, api_repos_prefix(), Seq::<char>::empty()) == rest,
{
    reveal_strlit("https://api.github.com/repos/");
    let prefix = api_repos_prefix();
    assert(prefix.len() == 29);
    assert(prefix[5] == ':');
    assert((prefix + rest).subrange(0, prefix.len() as int) =~= prefix);
    assert(crate::text::starts_with(prefix + rest, prefix));
    assert((prefix + rest).skip(prefix.len() as int) =~= rest);
    assert(replace_all(prefix + rest, prefix, Seq::<char>::empty())
        == Seq::<char>::empty() + replace_all(rest, prefix, Seq::<char>::empty()));
    lemma_no_token_with_char(rest, prefix, 5, ':');
    crate::text::lemma_replace_none(rest, prefix, Seq::<char>::empty());
    assert(Seq::<char>::empty() + rest =~= rest);
}

/// Before the archive segment that stands between name and branch, no
/// occurrence of that segment begins: every earlier slash is followed by
/// text that cannot spell it.
proof fn lemma_segment_first(owner: Seq<char>, name: Seq<char>, branch: Seq<char>)
    requires
        free_of(owner, '/'),
        free_of(name, '/'),
        name != seq!['z', 'i', 'p', 'b', 'a', 'l', 'l'],
    ensures
        forall|i: int|
            0 <= i < (owner + seq!['/'] + name).len() ==> !crate::text::occurs_at(
                (owner + seq!['/'] + name) + (zipball_segment() + branch),
                i,
                zipball_segment(),
            ),
{
    reveal_strlit("/zipball/");
    let seg = zipball_segment();
    let slash = seq!['/'];
    let a3 = owner + slash + name;
    let rest = a3 + (seg + branch);
    assert(seg.len() == 9);
    assert(seg[0] == '/');
    assert(seg[1] == 'z');
    assert(seg[2] == 'i');
    assert(seg[3] == 'p');
    assert(seg[4] == 'b');
    assert(seg[5] == 'a');
    assert(seg[6] == 'l');
    assert(seg[7] == 'l');
    assert(seg[8] == '/');
    assert forall|j: int| 0 <= j < a3.len() implies #[trigger] rest[j] == a3[j] by {}
    assert forall|i: int| 0 <= i < a3.len() implies !crate::text::occurs_at(rest, i, seg) by {
        if crate::text::occurs_at(rest, i, seg) {
            assert forall|k: int| 0 <= k < 9 implies #[trigger] rest[i + k] == seg[k] by {
                assert(rest.subrange(i, i + seg.len() as int)[k] == seg[k]);
                assert(rest.subrange(i, i + seg.len() as int)[k] == rest[i + k]);
            }
            if i < owner.len() {
                assert(a3[i] == owner[i]);
                assert(owner[i] != '/');
                assert(false);
            } else if i > owner.len() {
                assert(a3[i] == name[i - owner.len() - 1]);
                assert(false);
            } else {
                // The slash between owner and name: the segment would
                // have to continue as the name does.
                if name.len() > 7 {
                    assert(rest[i + 8] == a3[i + 8]);
                    assert(a3[i + 8] == name[7]);
                    assert(false);
                } else if name.len() < 7 {
                    assert(i + 1 + name.len() == a3.len());
                    assert(rest[a3.len() as int] == seg[0]);
                    assert(rest[i + 1 + name.len() as int] == seg[1 + name.len() as int]);
                    assert(seg[1 + name.len() as int] != '/');
                    assert(false);
                } else {
                    assert forall|k: int| 0 <= k < 7 implies #[trigger] name[k] == seg[k + 1] by {
                        assert(rest[i + 1 + k] == a3[i + 1 + k]);
                        assert(a3[i + 1 + k] == name[k]);
                    }
                    assert(name =~= seq!['z', 'i', 'p', 'b', 'a', 'l', 'l']);
                    assert(false);
                }
            }
        }
    }
}

/// Identifier derivation: for an archive URL of the platform's shape,
/// the derived identifier is `owner/name@branch`. Parts that could
/// mimic the stripped prefix or the archive segment are left out: a
/// colon or slash inside a name, a repository named `zipball`, or a
/// branch carrying the archive segment would each garble the
/// identifier.
pub proof fn lemma_identifier_shape(owner: Seq<char>, name: Seq<char>, branch: Seq<char>)
    requires
        free_of(owner, '/'),
        free_of(name, '/'),
        free_of(owner, ':'),
        free_of(name, ':'),
        free_of(branch, ':'),
        name != seq!['z', 'i', 'p', 'b', 'a', 'l', 'l'],
        !crate::text::contains_seq(branch, zipball_segment()),
    ensures
        repo_id_of(api_repos_prefix() + owner + seq!['/'] + name + zipball_segment() + branch)
            == owner + seq!['/'] + name + seq!['@'] + branch,
{
    reveal_strlit("/zipball/");
    let prefix = api_repos_prefix();
    let seg = zipball_segment();
    let slash = seq!['/'];
    let a3 = owner + slash + name;
    let rest = a3 + (seg + branch);
    let url = prefix + owner + slash + name + seg + branch;
    assert(seg.len() == 9);
    assert(url =~= prefix + rest);

    assert(free_of(slash, ':'));
    assert(free_of(seg, ':'));
    lemma_free_of_concat(owner, slash, ':');
    lemma_free_of_concat(owner + slash, name, ':');
    lemma_free_of_concat(a3, seg, ':');
    lemma_free_of_concat(a3 + seg, branch, ':');
    assert(rest =~= (a3 + seg) + branch);
    lemma_prefix_strip(rest);
    assert(replace_all(url, prefix, Seq::<char>::empty()) == rest);

    lemma_segment_first(owner, name, branch);
    crate::text::lemma_replace_skip_clear(a3, seg + branch, seg, seq!['@']);
    assert((seg + branch).subrange(0, seg.len() as int) =~= seg);
    assert(crate::text::starts_with(seg + branch, seg));
    assert((seg + branch).skip(seg.len() as int) =~= branch);
    assert(replace_all(seg + branch, seg, seq!['@'])
        == seq!['@'] + replace_all(branch, seg, seq!['@']));
    crate::text::lemma_replace_none(branch, seg, seq!['@']);
    assert(repo_id_of(url) == a3 + (seq!['@'] + branch));
    assert(a3 + (seq!['@'] + branch) =~= owner + slash + name + seq!['@'] + branch);
}

/// Sanitization is total and idempotent: the result is as long as the
/// input, carries none of the reserved characters, and sanitizing it
/// again changes nothing.
pub proof fn lemma_sanitize_total_idempotent(s: Seq<char>)
    ensures
        sanitized(s).len() == s.len(),
        forall|i: int|
            0 <= i < s.len() ==> sanitized(s)[i] != '/' && sanitized(s)[i] != '@'
                && sanitized(s)[i] != ':' && sanitized(s)[i] != '.' && sanitized(s)[i] != ' ',
        sanitized(sanitized(s)) == sanitized(s),
{
    assert(sanitized(sanitized(s)) =~= sanitized(s));
}

} // verus!
