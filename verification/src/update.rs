//! Update notification: compare the running version with the latest published
//! release, throttle automatic checks, and build the URLs involved.
//!
//! Notify-only: nothing here touches the installed program. The HTTP request
//! and the JSON decoding of the reply happen at the application's edge; this
//! module decides what the reply means.
use vstd::prelude::*;

use crate::text::{
    append_chars, append_str, before_any, before_any_exec, chars_of, drop_char_prefix,
    drop_char_prefix_vec, ends_with, ends_with_vec, parse_unsigned, parse_unsigned_vec,
    slice_vec, split_on, split_vec, starts_with, starts_with_vec, string_from_chars, trim, trim_vec,
};

verus! {

/// Minimum interval between automatic startup checks (24 hours, in seconds).
pub const CHECK_INTERVAL_SECS: u64 = 86400;

/// The version text with surrounding whitespace, a leading `v`, and any
/// pre-release / build suffix (from the first `-` or `+`) removed.
pub open spec fn version_core(s: Seq<char>) -> Seq<char> {
    before_any(drop_char_prefix(trim(s), 'v'), seq!['-', '+'])
}

/// The `(major, minor, patch)` a version string names: exactly three
/// dot-separated decimal components of the core, each fitting a `u64`.
pub open spec fn version_of(s: Seq<char>) -> Option<(u64, u64, u64)> {
    let parts = split_on(version_core(s), '.');
    if parts.len() == 3
        && parse_unsigned(parts[0], 10, u64::MAX as nat) is Some
        && parse_unsigned(parts[1], 10, u64::MAX as nat) is Some
        && parse_unsigned(parts[2], 10, u64::MAX as nat) is Some {
        Some((
            parse_unsigned(parts[0], 10, u64::MAX as nat)->0 as u64,
            parse_unsigned(parts[1], 10, u64::MAX as nat)->0 as u64,
            parse_unsigned(parts[2], 10, u64::MAX as nat)->0 as u64,
        ))
    } else {
        None
    }
}

/// Lexicographic "strictly greater" on version triples.
pub open spec fn version_gt(a: (u64, u64, u64), b: (u64, u64, u64)) -> bool {
    a.0 > b.0 || (a.0 == b.0 && (a.1 > b.1 || (a.1 == b.1 && a.2 > b.2)))
}

/// Whether `latest` names a strictly newer release than `current`; never
/// when either fails to parse.
pub open spec fn newer(current: Seq<char>, latest: Seq<char>) -> bool {
    match (version_of(current), version_of(latest)) {
        (Some(cur), Some(lat)) => version_gt(lat, cur),
        _ => false,
    }
}

/// Whether an automatic check is due at `now`.
pub open spec fn check_due(now: u64, last: Option<u64>) -> bool {
    match last {
        None => true,
        Some(l) => (if now >= l { now - l } else { 0 }) >= CHECK_INTERVAL_SECS,
    }
}

/// `s` without any trailing `c` characters (`trim_end_matches(c)`).
pub open spec fn trim_end_char(s: Seq<char>, c: char) -> Seq<char>
    decreases s.len(),
{
    if s.len() > 0 && s.last() == c {
        trim_end_char(s.drop_last(), c)
    } else {
        s
    }
}

/// `pat` occurs in `s` starting at index `i`.
pub open spec fn occurs_at(s: Seq<char>, pat: Seq<char>, i: int) -> bool {
    0 <= i && i + pat.len() <= s.len() && s.subrange(i, i + pat.len()) == pat
}

/// The first index at or after `k` where `pat` occurs in `s`.
pub open spec fn find_from(s: Seq<char>, pat: Seq<char>, k: int) -> Option<int>
    decreases s.len() + 1 - k,
{
    if k < 0 || k + pat.len() > s.len() {
        None
    } else if occurs_at(s, pat, k) {
        Some(k)
    } else {
        find_from(s, pat, k + 1)
    }
}

/// A found occurrence really is one, at or after the start position.
proof fn lemma_find_some(s: Seq<char>, pat: Seq<char>, k: int)
    ensures
        find_from(s, pat, k) matches Some(i) ==> occurs_at(s, pat, i) && k <= i,
    decreases s.len() + 1 - k,
{
    if !(k < 0 || k + pat.len() > s.len()) && !occurs_at(s, pat, k) {
        lemma_find_some(s, pat, k + 1);
    }
}

/// The host marker that precedes `owner/repo` in a GitHub URL.
pub open spec fn github_marker() -> Seq<char> {
    "github.com/"@
}

/// The `owner/repo` slug of a GitHub repository URL: trailing `/`s are
/// ignored, the text between the first and the second occurrence of
/// `github.com/` (or the end) is taken, and its first two `/`-separated
/// pieces must both be non-empty; a `.git` suffix on the repository is
/// dropped.
pub open spec fn slug_of(url: Seq<char>) -> Option<Seq<char>> {
    let t = trim_end_char(url, '/');
    let pat = github_marker();
    match find_from(t, pat, 0) {
        None => None,
        Some(a) => {
            let after = t.skip(a + pat.len());
            let rest = match find_from(after, pat, 0) {
                Some(b) => after.take(b),
                None => after,
            };
            let parts = split_on(rest, '/');
            if parts.len() < 2 || parts[0].len() == 0 || parts[1].len() == 0 {
                None
            } else {
                let repo = if ends_with(parts[1], ".git"@) {
                    parts[1].take(parts[1].len() - 4)
                } else {
                    parts[1]
                };
                Some(parts[0] + seq!['/'] + repo)
            }
        }
    }
}

/// The REST endpoint of a repository's newest published release.
pub open spec fn api_url_of(slug: Seq<char>) -> Seq<char> {
    "https://api.github.com/repos/"@ + slug + "/releases/latest"@
}

/// The human-facing "latest release" page of a repository.
pub open spec fn release_page_of(slug: Seq<char>) -> Seq<char> {
    "https://github.com/"@ + slug + "/releases/latest"@
}

/// The version as shown to the user: trimmed, without a leading `v`.
pub open spec fn shown_version(tag: Seq<char>) -> Seq<char> {
    drop_char_prefix(trim(tag), 'v')
}

/// Parse a `vMAJOR.MINOR.PATCH` (or bare `MAJOR.MINOR.PATCH`) version into a
/// comparable triple. A pre-release / build suffix (`-rc1`, `+meta`) is
/// dropped before parsing, and anything malformed yields `None`, so a tag
/// that cannot be understood is never treated as newer.
pub fn parse_version(s: &str) -> (r: Option<(u64, u64, u64)>)
    ensures
        r == version_of(s@),
{
    let v = chars_of(s);
    let t = trim_vec(v.as_slice());
    let t = drop_char_prefix_vec(t.as_slice(), 'v');
    let mut seps: Vec<char> = Vec::new();
    seps.push('-');
    seps.push('+');
    proof {
        assert(seps@ =~= seq!['-', '+']);
    }
    let core = before_any_exec(t.as_slice(), seps.as_slice());
    let parts = split_vec(core.as_slice(), '.');
    let ghost pv = parts@.map_values(|x: Vec<char>| x@);
    if parts.len() != 3 {
        return None;
    }
    assert(parts@[0]@ == pv[0] && parts@[1]@ == pv[1] && parts@[2]@ == pv[2]);
    let major = match parse_unsigned_vec(parts[0].as_slice(), 10, u64::MAX) {
        Some(n) => n,
        None => return None,
    };
    let minor = match parse_unsigned_vec(parts[1].as_slice(), 10, u64::MAX) {
        Some(n) => n,
        None => return None,
    };
    let patch = match parse_unsigned_vec(parts[2].as_slice(), 10, u64::MAX) {
        Some(n) => n,
        None => return None,
    };
    Some((major, minor, patch))
}

/// Lexicographic comparison of two version triples.
fn version_greater(a: (u64, u64, u64), b: (u64, u64, u64)) -> (r: bool)
    ensures
        r == version_gt(a, b),
{
    a.0 > b.0 || (a.0 == b.0 && (a.1 > b.1 || (a.1 == b.1 && a.2 > b.2)))
}

/// Whether `latest_tag` names a strictly newer release than `current`.
/// Either side failing to parse yields `false` (never a false "update
/// available").
pub fn is_newer(current: &str, latest_tag: &str) -> (r: bool)
    ensures
        r == newer(current@, latest_tag@),
{
    match (parse_version(current), parse_version(latest_tag)) {
        (Some(cur), Some(latest)) => version_greater(latest, cur),
        _ => false,
    }
}

/// Whether an automatic check is due: never run before, or last run at least
/// [`CHECK_INTERVAL_SECS`] ago. A last-check time in the future (clock skew)
/// is simply "not due yet".
pub fn should_check(now: u64, last: Option<u64>) -> (r: bool)
    ensures
        r == check_due(now, last),
{
    match last {
        None => true,
        Some(last) => now.saturating_sub(last) >= CHECK_INTERVAL_SECS,
    }
}

/// The first index at or after `k` where `pat` occurs in `v`.
fn find_vec(v: &[char], pat: &[char], k: usize) -> (r: Option<usize>)
    ensures
        match r {
            Some(i) => find_from(v@, pat@, k as int) == Some(i as int),
            None => find_from(v@, pat@, k as int) is None,
        },
    decreases v.len() + 1 - k,
{
    if k > v.len() || pat.len() > v.len() - k {
        return None;
    }
    let mut j: usize = 0;
    let mut hit = true;
    while j < pat.len()
        invariant
            k + pat.len() <= v.len(),
            j <= pat.len(),
            hit == (forall|m: int| 0 <= m < j ==> v@[k + m] == pat@[m]),
        decreases pat.len() - j,
    {
        if v[k + j] != pat[j] {
            hit = false;
        }
        j = j + 1;
    }
    proof {
        if hit {
            assert(v@.subrange(k as int, k + pat.len()) =~= pat@);
        } else {
            let m = choose|m: int| 0 <= m < pat.len() && v@[k + m] != pat@[m];
            assert(v@.subrange(k as int, k + pat.len())[m] != pat@[m]);
        }
    }
    if hit {
        Some(k)
    } else {
        find_vec(v, pat, k + 1)
    }
}

/// `v` without trailing `c` characters.
fn trim_end_char_vec(v: &[char], c: char) -> (r: Vec<char>)
    ensures
        r@ == trim_end_char(v@, c),
{
    let mut b: usize = v.len();
    proof {
        assert(v@.take(v.len() as int) =~= v@);
    }
    while b > 0 && v[b - 1] == c
        invariant
            b <= v.len(),
            trim_end_char(v@, c) == trim_end_char(v@.take(b as int), c),
        decreases b,
    {
        proof {
            assert(v@.take(b as int).drop_last() =~= v@.take(b - 1));
        }
        b = b - 1;
    }
    let mut r: Vec<char> = Vec::new();
    let mut i: usize = 0;
    while i < b
        invariant
            i <= b <= v.len(),
            r@ == v@.take(i as int),
        decreases b - i,
    {
        r.push(v[i]);
        i = i + 1;
        proof {
            assert(r@ =~= v@.take(i as int));
        }
    }
    r
}

/// Extract the `owner/repo` slug from a GitHub repository URL, or `None` if
/// it is not a recognizable GitHub URL.
pub fn repo_slug(repo_url: &str) -> (r: Option<String>)
    ensures
        match r {
            Some(s) => slug_of(repo_url@) == Some(s@),
            None => slug_of(repo_url@) is None,
        },
{
    let v = chars_of(repo_url);
    let t = trim_end_char_vec(v.as_slice(), '/');
    let pat = chars_of("github.com/");
    let a = match find_vec(t.as_slice(), pat.as_slice(), 0) {
        Some(a) => a,
        None => return None,
    };
    proof {
        lemma_find_some(t@, pat@, 0);
        assert(occurs_at(t@, pat@, a as int));
        assert(a + pat@.len() <= t@.len());
        assert(pat@.len() == pat.len());
        assert(t@.len() == t.len());
    }
    let start: usize = a + pat.len();
    let after = slice_vec(t.as_slice(), start, t.len());
    proof {
        assert(after@ =~= t@.skip(a + pat@.len()));
    }
    let rest = match find_vec(after.as_slice(), pat.as_slice(), 0) {
        Some(b) => {
            proof {
                lemma_find_some(after@, pat@, 0);
            }
            let r = slice_vec(after.as_slice(), 0, b);
            proof {
                assert(r@ =~= after@.take(b as int));
            }
            r
        },
        None => after,
    };
    let parts = split_vec(rest.as_slice(), '/');
    let ghost pv = parts@.map_values(|x: Vec<char>| x@);
    if parts.len() < 2 || parts[0].len() == 0 || parts[1].len() == 0 {
        proof {
            if parts.len() >= 2 {
                assert(parts@[0]@ == pv[0] && parts@[1]@ == pv[1]);
            }
        }
        return None;
    }
    assert(parts@[0]@ == pv[0] && parts@[1]@ == pv[1]);
    let git = chars_of(".git");
    proof {
        reveal_strlit(".git");
    }
    let repo = if ends_with_vec(parts[1].as_slice(), git.as_slice()) {
        let r = slice_vec(parts[1].as_slice(), 0, parts[1].len() - 4);
        proof {
            assert(r@ =~= pv[1].take(pv[1].len() - 4));
        }
        r
    } else {
        parts[1].clone()
    };
    let mut out: Vec<char> = Vec::new();
    append_chars(&mut out, parts[0].as_slice());
    out.push('/');
    append_chars(&mut out, repo.as_slice());
    proof {
        assert(out@ =~= pv[0] + seq!['/'] + repo@);
    }
    Some(string_from_chars(out.as_slice()))
}

/// REST endpoint for a repository's newest published (non-draft,
/// non-pre-release) release.
pub fn api_url(slug: &str) -> (r: String)
    ensures
        r@ == api_url_of(slug@),
{
    let mut out: Vec<char> = Vec::new();
    append_str(&mut out, "https://api.github.com/repos/");
    append_str(&mut out, slug);
    append_str(&mut out, "/releases/latest");
    proof {
        assert(out@ =~= api_url_of(slug@));
    }
    string_from_chars(out.as_slice())
}

/// Human-facing "latest release" page, used when the release data gives no
/// usable page address.
pub fn release_page_url(slug: &str) -> (r: String)
    ensures
        r@ == release_page_of(slug@),
{
    let mut out: Vec<char> = Vec::new();
    append_str(&mut out, "https://github.com/");
    append_str(&mut out, slug);
    append_str(&mut out, "/releases/latest");
    proof {
        assert(out@ =~= release_page_of(slug@));
    }
    string_from_chars(out.as_slice())
}

/// The version string shown to the user: the tag, trimmed, with a leading
/// `v` removed (`v0.5.0` -> `0.5.0`).
pub fn display_version(tag: &str) -> (r: String)
    ensures
        r@ == shown_version(tag@),
{
    let v = chars_of(tag);
    let t = trim_vec(v.as_slice());
    let t = drop_char_prefix_vec(t.as_slice(), 'v');
    string_from_chars(t.as_slice())
}

/// The fields of a release description that the update check reads. A field
/// the description lacks is the empty string.
#[derive(Debug, Clone, PartialEq, Eq, Default)]
pub struct Release {
    pub tag_name: String,
    pub html_url: String,
}

/// The result of one update check, from the application's point of view.
#[derive(Debug, PartialEq, Eq)]
pub enum OutcomeKind {
    /// The running version is the latest; carries it for the dialog.
    UpToDate(String),
    /// A newer release exists: its display version and the page to open.
    Available { version: String, url: String },
    /// The check could not complete; carries a short reason for the dialog.
    Failed(String),
}

/// The reason given when the release description could not be decoded.
pub open spec fn unreadable_reason() -> Seq<char> {
    "could not read release data"@
}

/// Turn a decoded release description (`None` when the reply could not be
/// decoded) into an outcome for the running version `current`. A newer
/// release links to its own page only when that is an `https://` address;
/// otherwise to the repository's releases page.
pub fn evaluate(release: Option<Release>, current: &str, slug: &str) -> (r: OutcomeKind)
    ensures
        match release {
            None => r matches OutcomeKind::Failed(m) && m@ == unreadable_reason(),
            Some(rel) => if newer(current@, rel.tag_name@) {
                r matches OutcomeKind::Available { version, url } && version@ == shown_version(
                    rel.tag_name@,
                ) && url@ == (if starts_with(rel.html_url@, "https://"@) {
                    rel.html_url@
                } else {
                    release_page_of(slug@)
                })
            } else {
                r matches OutcomeKind::UpToDate(v) && v@ == shown_version(current@)
            },
        },
{
    let release = match release {
        Some(rel) => rel,
        None => {
            let m = chars_of("could not read release data");
            return OutcomeKind::Failed(string_from_chars(m.as_slice()));
        },
    };
    if is_newer(current, release.tag_name.as_str()) {
        let https = chars_of("https://");
        let u = chars_of(release.html_url.as_str());
        let url = if starts_with_vec(u.as_slice(), https.as_slice()) {
            release.html_url.clone()
        } else {
            release_page_url(slug)
        };
        OutcomeKind::Available { version: display_version(release.tag_name.as_str()), url }
    } else {
        OutcomeKind::UpToDate(display_version(current))
    }
}

/// "Newer than" is a strict order on the releases it can compare: never
/// reflexive, never both ways, and transitive.
pub proof fn lemma_newer_is_strict(a: Seq<char>, b: Seq<char>, c: Seq<char>)
    ensures
        !newer(a, a),
        newer(a, b) ==> !newer(b, a),
        newer(a, b) && newer(b, c) ==> newer(a, c),
{
}

/// A version that does not parse is never newer, nor older, than anything.
pub proof fn lemma_unparseable_never_newer(bad: Seq<char>, other: Seq<char>)
    requires
        version_of(bad) is None,
    ensures
        !newer(other, bad),
        !newer(bad, other),
{
}

/// Once a check is due it stays due as time moves on.
pub proof fn lemma_check_due_monotone(now: u64, later: u64, last: Option<u64>)
    requires
        now <= later,
        check_due(now, last),
    ensures
        check_due(later, last),
{
}

} // verus!
