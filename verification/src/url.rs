//! Parsing of remote URLs and reference names.
//!
//! The repository title is the `owner/name` pair embedded in the remote
//! URL, for both SSH-style (`git@host:owner/name.git`) and HTTPS-style
//! (`https://host/owner/name.git`) URLs; a URL of neither shape is passed
//! through unchanged. The username embedded in an SSH-style URL feeds the
//! credential provider, and the default-branch reference advertised by a
//! remote is reduced to its branch name by stripping `refs/heads/`.

use vstd::prelude::*;

verus! {

/// A word character: a letter, a digit, or an underscore.
pub open spec fn word_char(c: char) -> bool {
    ('a' <= c && c <= 'z') || ('A' <= c && c <= 'Z') || ('0' <= c && c <= '9') || c == '_'
}

/// A character allowed in a host: a word character or a dot.
pub open spec fn host_char(c: char) -> bool {
    word_char(c) || c == '.'
}

/// A character allowed in an owner or repository name: a word character, a
/// hyphen, or a dot.
pub open spec fn ident_char(c: char) -> bool {
    word_char(c) || c == '-' || c == '.'
}

/// Every character of the sequence is a host character.
pub open spec fn all_host_chars(s: Seq<char>) -> bool {
    forall|i: int| 0 <= i < s.len() ==> host_char(s[i])
}

/// Every character of the sequence is an owner-or-name character.
pub open spec fn all_ident_chars(s: Seq<char>) -> bool {
    forall|i: int| 0 <= i < s.len() ==> ident_char(s[i])
}

/// The index of the last `/` in the sequence, or a negative value if
/// there is none.
pub open spec fn last_slash_index(s: Seq<char>) -> int
    decreases s.len(),
{
    if s.len() == 0 {
        -1
    } else if s.last() == '/' {
        s.len() - 1
    } else {
        last_slash_index(s.drop_last())
    }
}

/// The index of the last `:` or `/` in the sequence, or a negative value
/// if there is none.
pub open spec fn last_sep_index(s: Seq<char>) -> int
    decreases s.len(),
{
    if s.len() == 0 {
        -1
    } else if s.last() == ':' || s.last() == '/' {
        s.len() - 1
    } else {
        last_sep_index(s.drop_last())
    }
}

/// The index of the first `@` in the sequence, or a negative value if
/// there is none.
pub open spec fn first_at_index(s: Seq<char>) -> int
    decreases s.len(),
{
    if s.len() == 0 {
        -1
    } else if s[0] == '@' {
        0
    } else {
        let r = first_at_index(s.drop_first());
        if r < 0 {
            -1
        } else {
            r + 1
        }
    }
}

/// What `last_slash_index` finds: the last slash, after which none occurs.
pub proof fn lemma_last_slash_index(s: Seq<char>)
    ensures
        last_slash_index(s) < s.len(),
        last_slash_index(s) >= 0 ==> (s[last_slash_index(s)] == '/' && (forall|i: int|
            last_slash_index(s) < i < s.len() ==> s[i] != '/')),
        last_slash_index(s) < 0 ==> (forall|i: int| 0 <= i < s.len() ==> s[i] != '/'),
    decreases s.len(),
{
    if s.len() == 0 {
    } else if s.last() == '/' {
    } else {
        lemma_last_slash_index(s.drop_last());
        assert(forall|i: int| 0 <= i < s.len() - 1 ==> s[i] == s.drop_last()[i]);
    }
}

/// What `last_sep_index` finds: the last separator, after which none
/// occurs.
pub proof fn lemma_last_sep_index(s: Seq<char>)
    ensures
        last_sep_index(s) < s.len(),
        last_sep_index(s) >= 0 ==> ((s[last_sep_index(s)] == ':' || s[last_sep_index(s)] == '/')
            && (forall|i: int|
            last_sep_index(s) < i < s.len() ==> (s[i] != ':' && s[i] != '/'))),
        last_sep_index(s) < 0 ==> (forall|i: int|
            0 <= i < s.len() ==> (s[i] != ':' && s[i] != '/')),
    decreases s.len(),
{
    if s.len() == 0 {
    } else if s.last() == ':' || s.last() == '/' {
    } else {
        lemma_last_sep_index(s.drop_last());
        assert(forall|i: int| 0 <= i < s.len() - 1 ==> s[i] == s.drop_last()[i]);
    }
}

/// What `first_at_index` finds: the first `@`, before which none occurs.
pub proof fn lemma_first_at_index(s: Seq<char>)
    ensures
        first_at_index(s) < s.len(),
        first_at_index(s) >= 0 ==> (s[first_at_index(s)] == '@' && (forall|i: int|
            0 <= i < first_at_index(s) ==> s[i] != '@')),
        first_at_index(s) < 0 ==> (forall|i: int| 0 <= i < s.len() ==> s[i] != '@'),
    decreases s.len(),
{
    if s.len() == 0 {
    } else if s[0] == '@' {
    } else {
        lemma_first_at_index(s.drop_first());
        let t = s.drop_first();
        let r = first_at_index(t);
        if r >= 0 {
            assert(s[r + 1] == t[r]);
            assert forall|i: int| 0 <= i < first_at_index(s) implies s[i] != '@' by {
                if i > 0 {
                    assert(s[i] == t[i - 1]);
                }
            }
        } else {
            assert forall|i: int| 0 <= i < s.len() implies s[i] != '@' by {
                if i > 0 {
                    assert(s[i] == t[i - 1]);
                }
            }
        }
    }
}

/// The length of the scheme prefix a repository URL may carry, or a
/// negative value: `https://` or `git@`.
pub open spec fn prefix_len(s: Seq<char>) -> int {
    if s.len() >= 8 && s.subrange(0, 8) == "https://"@ {
        8
    } else if s.len() >= 4 && s.subrange(0, 4) == "git@"@ {
        4
    } else {
        -1
    }
}

/// The owner and repository name embedded in a remote URL, when the URL
/// has the shape `prefix host sep owner / name .git`: the prefix is
/// `https://` or `git@`, the host is made of host characters, the
/// separator is `:` or `/`, and owner and name are made of owner-or-name
/// characters. The separator before the name is the last slash, and the
/// one before the owner the last separator preceding it, so the split is
/// unambiguous.
pub open spec fn title_of(s: Seq<char>) -> Option<(Seq<char>, Seq<char>)> {
    let n = s.len() as int;
    let p = prefix_len(s);
    let m = last_slash_index(s);
    if n < 4 || s.subrange(n - 4, n) != ".git"@ || p < 0 || m < 0 || m >= n - 4 {
        Option::None
    } else {
        let k = last_sep_index(s.subrange(0, m));
        if k < p {
            Option::None
        } else {
            let host = s.subrange(p, k);
            let owner = s.subrange(k + 1, m);
            let name = s.subrange(m + 1, n - 4);
            if all_host_chars(host) && all_ident_chars(owner) && all_ident_chars(name) {
                Option::Some((owner, name))
            } else {
                Option::None
            }
        }
    }
}

/// The repository title derived from a remote URL: `owner/name` when the
/// URL parses, the URL itself unchanged otherwise.
pub open spec fn repo_title_spec(s: Seq<char>) -> Seq<char> {
    match title_of(s) {
        Option::Some(parts) => parts.0 + "/"@ + parts.1,
        Option::None => s,
    }
}

/// The username embedded in a URL: the run of owner-or-name characters
/// before the first `@`, when it is non-empty and unbroken.
pub open spec fn url_username(s: Seq<char>) -> Option<Seq<char>> {
    let a = first_at_index(s);
    if a > 0 && all_ident_chars(s.subrange(0, a)) {
        Option::Some(s.subrange(0, a))
    } else {
        Option::None
    }
}

/// Whether the character is a host character.
fn is_host_char(c: char) -> (b: bool)
    ensures
        b == host_char(c),
{
    ('a' <= c && c <= 'z') || ('A' <= c && c <= 'Z') || ('0' <= c && c <= '9') || c == '_' || c
        == '.'
}

/// Whether the character is an owner-or-name character.
fn is_ident_char(c: char) -> (b: bool)
    ensures
        b == ident_char(c),
{
    ('a' <= c && c <= 'z') || ('A' <= c && c <= 'Z') || ('0' <= c && c <= '9') || c == '_' || c
        == '-' || c == '.'
}

/// Whether every character of `s` in `[lo, hi)` is a host character.
fn range_all_host(s: &str, lo: usize, hi: usize) -> (b: bool)
    requires
        lo <= hi <= s@.len(),
    ensures
        b == all_host_chars(s@.subrange(lo as int, hi as int)),
{
    let mut i: usize = lo;
    while i < hi
        invariant
            lo <= i <= hi <= s@.len(),
            forall|j: int| lo <= j < i ==> host_char(s@[j]),
        decreases hi - i,
    {
        if !is_host_char(s.get_char(i)) {
            assert(s@.subrange(lo as int, hi as int)[i - lo] == s@[i as int]);
            return false;
        }
        i = i + 1;
    }
    assert forall|j: int| 0 <= j < hi - lo implies host_char(
        s@.subrange(lo as int, hi as int)[j],
    ) by {
        assert(s@.subrange(lo as int, hi as int)[j] == s@[lo + j]);
    }
    true
}

/// Whether every character of `s` in `[lo, hi)` is an owner-or-name
/// character.
fn range_all_ident(s: &str, lo: usize, hi: usize) -> (b: bool)
    requires
        lo <= hi <= s@.len(),
    ensures
        b == all_ident_chars(s@.subrange(lo as int, hi as int)),
{
    let mut i: usize = lo;
    while i < hi
        invariant
            lo <= i <= hi <= s@.len(),
            forall|j: int| lo <= j < i ==> ident_char(s@[j]),
        decreases hi - i,
    {
        if !is_ident_char(s.get_char(i)) {
            assert(s@.subrange(lo as int, hi as int)[i - lo] == s@[i as int]);
            return false;
        }
        i = i + 1;
    }
    assert forall|j: int| 0 <= j < hi - lo implies ident_char(
        s@.subrange(lo as int, hi as int)[j],
    ) by {
        assert(s@.subrange(lo as int, hi as int)[j] == s@[lo + j]);
    }
    true
}

/// The index of the last `/` in `s`, if any.
fn find_last_slash(s: &str) -> (r: Option<usize>)
    ensures
        r matches Some(i) ==> i < s@.len() && i == last_slash_index(s@),
        r is None ==> last_slash_index(s@) < 0,
{
    let n = s.unicode_len();
    let mut i: usize = n;
    while i > 0
        invariant
            i <= n,
            n == s@.len(),
            forall|j: int| i <= j < n ==> s@[j] != '/',
        decreases i,
    {
        let c = s.get_char(i - 1);
        if c == '/' {
            proof {
                lemma_last_slash_index(s@);
                let r = last_slash_index(s@);
                if r != i - 1 {
                    if r > i as int - 1 {
                        assert(s@[r] != '/');
                    } else {
                        assert(s@[i - 1] != '/');
                    }
                }
            }
            return Some(i - 1);
        }
        i = i - 1;
    }
    proof {
        lemma_last_slash_index(s@);
        if last_slash_index(s@) >= 0 {
            assert(s@[last_slash_index(s@)] != '/');
        }
    }
    None
}

/// The index of the last `:` or `/` in `s` strictly before `end`, if any.
fn find_last_sep_before(s: &str, end: usize) -> (r: Option<usize>)
    requires
        end <= s@.len(),
    ensures
        r matches Some(i) ==> i < end && i == last_sep_index(s@.subrange(0, end as int)),
        r is None ==> last_sep_index(s@.subrange(0, end as int)) < 0,
{
    let ghost t = s@.subrange(0, end as int);
    let mut i: usize = end;
    while i > 0
        invariant
            i <= end <= s@.len(),
            t == s@.subrange(0, end as int),
            forall|j: int| i <= j < end ==> (s@[j] != ':' && s@[j] != '/'),
        decreases i,
    {
        let c = s.get_char(i - 1);
        if c == ':' || c == '/' {
            proof {
                lemma_last_sep_index(t);
                assert(forall|j: int| 0 <= j < end ==> t[j] == s@[j]);
                let r = last_sep_index(t);
                if r != i - 1 {
                    if r > i as int - 1 {
                        assert(t[r] != ':' && t[r] != '/');
                    } else {
                        assert(t[i - 1] != ':' && t[i - 1] != '/');
                    }
                }
            }
            return Some(i - 1);
        }
        i = i - 1;
    }
    proof {
        lemma_last_sep_index(t);
        assert(forall|j: int| 0 <= j < end ==> t[j] == s@[j]);
        if last_sep_index(t) >= 0 {
            assert(t[last_sep_index(t)] != ':' && t[last_sep_index(t)] != '/');
        }
    }
    None
}

/// The length of the scheme prefix the URL carries, if it carries one.
fn scheme_prefix_len(s: &str) -> (r: Option<usize>)
    ensures
        r matches Some(p) ==> p == prefix_len(s@) && p <= s@.len(),
        r is None ==> prefix_len(s@) < 0,
{
    let n = s.unicode_len();
    if n >= 8 && s.get_char(0) == 'h' && s.get_char(1) == 't' && s.get_char(2) == 't' && s.get_char(
        3,
    ) == 'p' && s.get_char(4) == 's' && s.get_char(5) == ':' && s.get_char(6) == '/' && s.get_char(
        7,
    ) == '/' {
        proof {
            reveal_strlit("https://");
            assert(s@.subrange(0, 8) =~= "https://"@);
        }
        return Some(8);
    }
    if n >= 4 && s.get_char(0) == 'g' && s.get_char(1) == 'i' && s.get_char(2) == 't' && s.get_char(
        3,
    ) == '@' {
        proof {
            reveal_strlit("git@");
            reveal_strlit("https://");
            assert(s@.subrange(0, 4) =~= "git@"@);
            if s@.len() >= 8 && s@.subrange(0, 8) == "https://"@ {
                assert(s@.subrange(0, 8)[0] == s@[0]);
                assert(s@[0] == 'h' && s@[0] == 'g');
            }
        }
        return Some(4);
    }
    proof {
        reveal_strlit("https://");
        reveal_strlit("git@");
        if s@.len() >= 8 && s@.subrange(0, 8) == "https://"@ {
            assert(forall|j: int| 0 <= j < 8 ==> s@.subrange(0, 8)[j] == s@[j]);
            assert(false);
        }
        if s@.len() >= 4 && s@.subrange(0, 4) == "git@"@ {
            assert(forall|j: int| 0 <= j < 4 ==> s@.subrange(0, 4)[j] == s@[j]);
            assert(false);
        }
    }
    None
}

/// Whether the URL ends in `.git`.
fn ends_with_dot_git(s: &str) -> (b: bool)
    ensures
        b == (s@.len() >= 4 && s@.subrange(s@.len() as int - 4, s@.len() as int) == ".git"@),
{
    let n = s.unicode_len();
    if n < 4 {
        return false;
    }
    let b = s.get_char(n - 4) == '.' && s.get_char(n - 3) == 'g' && s.get_char(n - 2) == 'i'
        && s.get_char(n - 1) == 't';
    proof {
        reveal_strlit(".git");
        let tail = s@.subrange(s@.len() as int - 4, s@.len() as int);
        assert(forall|j: int| 0 <= j < 4 ==> tail[j] == s@[s@.len() - 4 + j]);
        if b {
            assert(tail =~= ".git"@);
        } else {
            if tail == ".git"@ {
                assert(tail[0] == '.' && tail[1] == 'g' && tail[2] == 'i' && tail[3] == 't');
            }
        }
    }
    b
}

/// The repository title embedded in a remote URL: `owner/name` for an
/// SSH-style or HTTPS-style URL ending in `.git`, the URL itself
/// unchanged otherwise.
pub fn repo_title_from_url(url: &str) -> (r: String)
    ensures
        r@ == repo_title_spec(url@),
{
    let n = url.unicode_len();
    let passthrough = String::from_str(url);
    if !ends_with_dot_git(url) {
        return passthrough;
    }
    let p = match scheme_prefix_len(url) {
        Some(p) => p,
        None => {
            return passthrough;
        },
    };
    let m = match find_last_slash(url) {
        Some(m) => m,
        None => {
            return passthrough;
        },
    };
    if m >= n - 4 {
        return passthrough;
    }
    let k = match find_last_sep_before(url, m) {
        Some(k) => k,
        None => {
            proof {
                lemma_last_sep_index(url@.subrange(0, m as int));
            }
            return passthrough;
        },
    };
    if k < p {
        return passthrough;
    }
    if !range_all_host(url, p, k) {
        return passthrough;
    }
    if !range_all_ident(url, k + 1, m) {
        return passthrough;
    }
    if !range_all_ident(url, m + 1, n - 4) {
        return passthrough;
    }
    let owner = url.substring_char(k + 1, m);
    let name = url.substring_char(m + 1, n - 4);
    let mut title = String::from_str(owner);
    title.append("/");
    let title = title.concat(name);
    proof {
        assert(title@ == url@.subrange(k as int + 1, m as int) + "/"@ + url@.subrange(
            m as int + 1,
            n as int - 4,
        ));
    }
    title
}

/// The username embedded in a remote URL, when it names one: the run of
/// owner-or-name characters before the first `@`.
pub fn username_from_url(url: &str) -> (r: Option<String>)
    ensures
        (match url_username(url@) {
            Option::Some(u) => r matches Some(v) && v@ == u,
            Option::None => r is None,
        }),
{
    let n = url.unicode_len();
    let mut i: usize = 0;
    while i < n
        invariant
            i <= n,
            n == url@.len(),
            forall|j: int| 0 <= j < i ==> url@[j] != '@',
        decreases n - i,
    {
        let c = url.get_char(i);
        if c == '@' {
            proof {
                lemma_first_at_index(url@);
                let a = first_at_index(url@);
                if a != i as int {
                    if a > i as int {
                        assert(url@[i as int] != '@');
                    } else {
                        assert(url@[a] != '@');
                    }
                }
            }
            if i == 0 {
                return None;
            }
            if range_all_ident(url, 0, i) {
                return Some(String::from_str(url.substring_char(0, i)));
            }
            return None;
        }
        i = i + 1;
    }
    proof {
        lemma_first_at_index(url@);
        if first_at_index(url@) >= 0 {
            assert(url@[first_at_index(url@)] != '@');
        }
    }
    None
}

/// The branch name a `refs/heads/` reference denotes, if the reference
/// lies under that namespace.
pub fn strip_refs_heads(refname: &str) -> (r: Option<String>)
    ensures
        (refname@.len() >= 11 && refname@.subrange(0, 11) == "refs/heads/"@) ==> (r matches Some(b)
            && b@ == refname@.subrange(11, refname@.len() as int)),
        !(refname@.len() >= 11 && refname@.subrange(0, 11) == "refs/heads/"@) ==> r is None,
{
    let n = refname.unicode_len();
    proof {
        reveal_strlit("refs/heads/");
    }
    if n < 11 {
        return None;
    }
    let ghost head = refname@.subrange(0, 11);
    proof {
        assert(forall|j: int| 0 <= j < 11 ==> head[j] == refname@[j]);
    }
    let b = refname.get_char(0) == 'r' && refname.get_char(1) == 'e' && refname.get_char(2) == 'f'
        && refname.get_char(3) == 's' && refname.get_char(4) == '/' && refname.get_char(5) == 'h'
        && refname.get_char(6) == 'e' && refname.get_char(7) == 'a' && refname.get_char(8) == 'd'
        && refname.get_char(9) == 's' && refname.get_char(10) == '/';
    if b {
        proof {
            assert(head =~= "refs/heads/"@);
        }
        Some(String::from_str(refname.substring_char(11, n)))
    } else {
        proof {
            if head == "refs/heads/"@ {
                assert(head[0] == 'r' && head[1] == 'e' && head[2] == 'f' && head[3] == 's'
                    && head[4] == '/' && head[5] == 'h' && head[6] == 'e' && head[7] == 'a'
                    && head[8] == 'd' && head[9] == 's' && head[10] == '/');
            }
        }
        None
    }
}

} // verus!
