//! Reading the latest release out of the GitHub API's JSON: the tag name
//! and the download address of this architecture's executable.

use vstd::prelude::*;
use vstd::string::{StringExecFns, StrSliceExecFns, StringSliceAdditionalSpecFns};
use crate::installer::{TargetArch, target_arch, spec_target_arch, parse_version, spec_parse_version};
use crate::text::{decimal, push_decimal, string_of};

verus! {

broadcast use vstd::string::axiom_spec_iter;

/// The characters of `s`.
pub fn chars_of(s: &str) -> (v: Vec<char>)
    ensures
        v@ == s@,
{
    let mut v: Vec<char> = Vec::new();
    for c in it: s.chars()
        invariant
            it.seq() == s@,
            v@.len() == it.index(),
            forall|j: int| 0 <= j < v@.len() ==> v@[j] == it.seq()[j],
    {
        v.push(c);
    }
    assert(v@ =~= s@);
    v
}

/// `pat` occurs in `s` at `i`.
pub open spec fn occurs_at(s: Seq<char>, pat: Seq<char>, i: int) -> bool {
    0 <= i && i + pat.len() <= s.len() && s.subrange(i, i + pat.len()) == pat
}

/// The first occurrence of `pat` in `s` at or after `from`.
pub open spec fn find_from(s: Seq<char>, pat: Seq<char>, from: int) -> Option<int>
    decreases s.len() + 1 - from,
{
    if from < 0 || from + pat.len() > s.len() {
        None
    } else if occurs_at(s, pat, from) {
        Some(from)
    } else {
        find_from(s, pat, from + 1)
    }
}

/// The second piece of `s.split(pat)`: between the first and the second
/// occurrence (or the end).
pub open spec fn second_piece(s: Seq<char>, pat: Seq<char>) -> Option<Seq<char>> {
    match find_from(s, pat, 0) {
        None => None,
        Some(f) => {
            let start = f + pat.len();
            match find_from(s, pat, start) {
                Some(g) => Some(s.subrange(start, g)),
                None => Some(s.subrange(start, s.len() as int)),
            }
        },
    }
}

/// The release tag: after `"tag_name"`, the text between the first and
/// second `:`, and in that the text between the first and second `"`.
pub open spec fn release_tag(json: Seq<char>) -> Option<Seq<char>> {
    match second_piece(json, "\"tag_name\""@) {
        None => None,
        Some(a) => match second_piece(a, seq![':']) {
            None => None,
            Some(b) => second_piece(b, seq!['"']),
        },
    }
}

/// `char::is_whitespace`: the Unicode White_Space characters.
pub open spec fn is_ws(c: char) -> bool {
    ||| '\t' <= c <= '\r'
    ||| c == ' '
    ||| c == '\u{85}'
    ||| c == '\u{A0}'
    ||| c == '\u{1680}'
    ||| '\u{2000}' <= c <= '\u{200A}'
    ||| c == '\u{2028}'
    ||| c == '\u{2029}'
    ||| c == '\u{202F}'
    ||| c == '\u{205F}'
    ||| c == '\u{3000}'
}

/// Start of `s[from..to]` without leading whitespace.
pub open spec fn skip_ws(s: Seq<char>, from: int, to: int) -> int
    decreases to - from,
{
    if from < to && is_ws(s[from]) {
        skip_ws(s, from + 1, to)
    } else {
        from
    }
}

/// End of `s[from..to]` without trailing whitespace.
pub open spec fn back_ws(s: Seq<char>, from: int, to: int) -> int
    decreases to - from,
{
    if from < to && is_ws(s[to - 1]) {
        back_ws(s, from, to - 1)
    } else {
        to
    }
}

/// The address in the piece `s[from..to]` of the split at
/// `"browser_download_url"`: after its first `:`, once trimmed, a quoted
/// text; the address runs to the next `"` (or the end).
pub open spec fn piece_url(s: Seq<char>, from: int, to: int) -> Option<(int, int)> {
    match find_from(s.subrange(from, to), seq![':'], 0) {
        None => None,
        Some(c) => {
            let a = skip_ws(s, from + c + 1, to);
            let b = back_ws(s, a, to);
            if a < b && s[a] == '"' {
                match find_from(s.subrange(a + 1, b), seq!['"'], 0) {
                    Some(q) => Some((a + 1, a + 1 + q)),
                    None => Some((a + 1, b)),
                }
            } else {
                None
            }
        },
    }
}

/// `s[from..to]` ends with `suffix`.
pub open spec fn ends_with_at(s: Seq<char>, from: int, to: int, suffix: Seq<char>) -> bool {
    to - from >= suffix.len() && s.subrange(to - suffix.len(), to) == suffix
}

/// The first address, in the pieces of the split at `pat` from the piece
/// starting at `from` on, that ends with `suffix`.
pub open spec fn download_url_from(s: Seq<char>, pat: Seq<char>, suffix: Seq<char>, from: int) -> Option<(int, int)>
    decreases s.len() - from,
{
    if from < 0 || from > s.len() || pat.len() == 0 {
        None
    } else {
        let end = match find_from(s, pat, from) {
            Some(e) => e,
            None => s.len() as int,
        };
        proof {
            lemma_find_from(s, pat, from);
        }
        match piece_url(s, from, end) {
            Some((a, b)) => if ends_with_at(s, a, b, suffix) {
                Some((a, b))
            } else if end < s.len() {
                download_url_from(s, pat, suffix, end + pat.len())
            } else {
                None
            },
            None => if end < s.len() && end >= from {
                download_url_from(s, pat, suffix, end + pat.len())
            } else {
                None
            },
        }
    }
}

pub open spec fn asset_suffix(arch: TargetArch) -> Seq<char> {
    "htop-win-"@ + spec_target_arch(arch) + ".exe"@
}

/// The latest release's version (its tag without the leading `v`) and the
/// download address of the executable for `arch`, or the error for the
/// first part that is missing or malformed.
pub open spec fn spec_latest_release(json: Seq<char>, byte_len: nat, arch: TargetArch) -> Result<(Seq<char>, Seq<char>), Seq<char>> {
    match release_tag(json) {
        None => Err("Failed to parse tag_name from GitHub API response (body length: "@ + decimal(byte_len)
            + " bytes)"@),
        Some(tag) => if !(tag.len() > 0 && tag[0] == 'v') {
            Err("Release tag must start with 'v': "@ + tag)
        } else if spec_parse_version(vstd::utf8::encode_utf8(tag.drop_first())) is None {
            Err("Release tag is not strict SemVer: "@ + tag)
        } else {
            match download_url_from(json, "\"browser_download_url\""@, asset_suffix(arch), 0) {
                Some((a, b)) => Ok((tag.drop_first(), json.subrange(a, b))),
                None => Err("Could not find download URL for this architecture (version="@ + tag.drop_first()
                    + ", url_empty=true)"@),
            }
        },
    }
}

/// What `find_from` finds: the first occurrence at or after `from`.
pub proof fn lemma_find_from(s: Seq<char>, pat: Seq<char>, from: int)
    requires
        from >= 0,
    ensures
        match find_from(s, pat, from) {
            Some(i) => from <= i && occurs_at(s, pat, i) && forall|j: int| from <= j < i ==> !occurs_at(s, pat, j),
            None => forall|j: int| from <= j ==> !occurs_at(s, pat, j),
        },
    decreases s.len() + 1 - from,
{
    if from + pat.len() <= s.len() && !occurs_at(s, pat, from) {
        lemma_find_from(s, pat, from + 1);
    }
}

/// `pat` occurs at the absolute position `k` inside `t[lo..hi]`.
fn matches_at(t: &Vec<char>, pat: &Vec<char>, lo: usize, hi: usize, k: usize) -> (r: bool)
    requires
        lo <= k <= hi <= t@.len(),
    ensures
        r == occurs_at(t@.subrange(lo as int, hi as int), pat@, k - lo),
{
    let m = pat.len();
    if m > hi - k {
        return false;
    }
    let ghost sub = t@.subrange(lo as int, hi as int);
    let mut j: usize = 0;
    while j < m
        invariant
            lo <= k <= hi <= t@.len(),
            m == pat@.len(),
            m <= hi - k,
            sub == t@.subrange(lo as int, hi as int),
            0 <= j <= m,
            forall|q: int| 0 <= q < j ==> t@[k + q] == pat@[q],
        decreases m - j,
    {
        if t[k + j] != pat[j] {
            assert(sub.subrange(k - lo, k - lo + m)[j as int] != pat@[j as int]);
            return false;
        }
        j = j + 1;
    }
    assert(sub.subrange(k - lo, k - lo + m) =~= pat@);
    true
}

/// The first occurrence of `pat` in `t[lo..hi]` at or after `from`, as an
/// absolute position.
fn find_in(t: &Vec<char>, pat: &Vec<char>, lo: usize, hi: usize, from: usize) -> (r: Option<usize>)
    requires
        lo <= from <= hi <= t@.len(),
        pat@.len() > 0,
    ensures
        match r {
            Some(i) => from <= i && i + pat@.len() <= hi && find_from(t@.subrange(lo as int, hi as int), pat@, from - lo) == Some(i - lo),
            None => find_from(t@.subrange(lo as int, hi as int), pat@, from - lo) is None,
        },
{
    let ghost sub = t@.subrange(lo as int, hi as int);
    let mut i = from;
    while i < hi && pat.len() <= hi - i
        invariant
            lo <= from <= i <= hi,
            hi <= t@.len(),
            pat@.len() > 0,
            sub == t@.subrange(lo as int, hi as int),
            find_from(sub, pat@, from - lo) == find_from(sub, pat@, i - lo),
        decreases hi + 1 - i,
    {
        if matches_at(t, pat, lo, hi, i) {
            return Some(i);
        }
        i = i + 1;
    }
    None
}

/// The second piece of `t[lo..hi]` split at `pat`, as absolute positions.
fn second_piece_range(t: &Vec<char>, pat: &Vec<char>, lo: usize, hi: usize) -> (r: Option<(usize, usize)>)
    requires
        lo <= hi <= t@.len(),
        pat@.len() > 0,
    ensures
        match r {
            Some((a, b)) => lo <= a <= b <= hi && second_piece(t@.subrange(lo as int, hi as int), pat@) == Some(
                t@.subrange(a as int, b as int),
            ),
            None => second_piece(t@.subrange(lo as int, hi as int), pat@) is None,
        },
{
    let ghost sub = t@.subrange(lo as int, hi as int);
    match find_in(t, pat, lo, hi, lo) {
        None => None,
        Some(f) => {
            proof {
                lemma_find_from(sub, pat@, 0);
            }
            let start = f + pat.len();
            match find_in(t, pat, lo, hi, start) {
                Some(g) => {
                    proof {
                        lemma_find_from(sub, pat@, start - lo);
                    }
                    assert(sub.subrange(start - lo, g - lo) =~= t@.subrange(start as int, g as int));
                    Some((start, g))
                },
                None => {
                    assert(sub.subrange(start - lo, sub.len() as int) =~= t@.subrange(start as int, hi as int));
                    Some((start, hi))
                },
            }
        },
    }
}

fn is_whitespace(c: char) -> (r: bool)
    ensures
        r == is_ws(c),
{
    ('\t' <= c && c <= '\r') || c == ' ' || c == '\u{85}' || c == '\u{A0}' || c == '\u{1680}' || ('\u{2000}' <= c
        && c <= '\u{200A}') || c == '\u{2028}' || c == '\u{2029}' || c == '\u{202F}' || c == '\u{205F}' || c
        == '\u{3000}'
}

fn skip_ws_exec(t: &Vec<char>, from: usize, to: usize) -> (r: usize)
    requires
        from <= to <= t@.len(),
    ensures
        r == skip_ws(t@, from as int, to as int),
        from <= r <= to,
{
    let mut i = from;
    while i < to && is_whitespace(t[i])
        invariant
            from <= i <= to <= t@.len(),
            skip_ws(t@, from as int, to as int) == skip_ws(t@, i as int, to as int),
        decreases to - i,
    {
        i = i + 1;
    }
    i
}

fn back_ws_exec(t: &Vec<char>, from: usize, to: usize) -> (r: usize)
    requires
        from <= to <= t@.len(),
    ensures
        r == back_ws(t@, from as int, to as int),
        from <= r <= to,
{
    let mut j = to;
    while j > from && is_whitespace(t[j - 1])
        invariant
            from <= j <= to <= t@.len(),
            back_ws(t@, from as int, to as int) == back_ws(t@, from as int, j as int),
        decreases j - from,
    {
        j = j - 1;
    }
    j
}

fn piece_url_exec(t: &Vec<char>, colon: &Vec<char>, quote: &Vec<char>, from: usize, to: usize) -> (r: Option<(usize, usize)>)
    requires
        from <= to <= t@.len(),
        colon@ == seq![':'],
        quote@ == seq!['"'],
    ensures
        match r {
            Some((a, b)) => a <= b <= to && piece_url(t@, from as int, to as int) == Some((a as int, b as int)),
            None => piece_url(t@, from as int, to as int) is None,
        },
{
    match find_in(t, colon, from, to, from) {
        None => None,
        Some(c) => {
            proof {
                lemma_find_from(t@.subrange(from as int, to as int), colon@, 0);
            }
            let a = skip_ws_exec(t, c + 1, to);
            let b = back_ws_exec(t, a, to);
            if a < b && t[a] == '"' {
                match find_in(t, quote, a + 1, b, a + 1) {
                    Some(q) => Some((a + 1, q)),
                    None => Some((a + 1, b)),
                }
            } else {
                None
            }
        },
    }
}

fn ends_with_exec(t: &Vec<char>, from: usize, to: usize, suffix: &Vec<char>) -> (r: bool)
    requires
        from <= to <= t@.len(),
    ensures
        r == ends_with_at(t@, from as int, to as int, suffix@),
{
    let m = suffix.len();
    if to - from < m {
        return false;
    }
    let base = to - m;
    let mut j: usize = 0;
    while j < m
        invariant
            from <= to <= t@.len(),
            m == suffix@.len(),
            m <= to - from,
            base == to - m,
            0 <= j <= m,
            forall|q: int| 0 <= q < j ==> t@[base + q] == suffix@[q],
        decreases m - j,
    {
        if t[base + j] != suffix[j] {
            assert(t@.subrange(base as int, to as int)[j as int] != suffix@[j as int]);
            return false;
        }
        j = j + 1;
    }
    assert(t@.subrange(base as int, to as int) =~= suffix@);
    true
}

/// Parse the latest release from the GitHub API response: the version (the
/// tag without its `v`, strict SemVer) and the address of the asset named
/// for `arch`.
pub fn parse_latest_release(json_text: &str, arch: TargetArch) -> (r: Result<(String, String), String>)
    ensures
        match r {
            Ok((v, u)) => spec_latest_release(json_text@, json_text.spec_bytes().len(), arch) == Ok::<
                (Seq<char>, Seq<char>),
                Seq<char>,
            >((v@, u@)),
            Err(e) => spec_latest_release(json_text@, json_text.spec_bytes().len(), arch) == Err::<
                (Seq<char>, Seq<char>),
                Seq<char>,
            >(e@),
        },
{
    let t = chars_of(json_text);
    let n = t.len();
    assert(t@.subrange(0, n as int) =~= t@);
    let tag_pat = chars_of("\"tag_name\"");
    let colon = chars_of(":");
    let quote = chars_of("\"");
    let url_pat = chars_of("\"browser_download_url\"");
    proof {
        reveal_strlit("\"tag_name\"");
        reveal_strlit(":");
        reveal_strlit("\"");
        reveal_strlit("\"browser_download_url\"");
        assert(colon@ =~= seq![':']);
        assert(quote@ =~= seq!['"']);
    }
    let tag_range = match second_piece_range(&t, &tag_pat, 0, n) {
        Some(r1) => match second_piece_range(&t, &colon, r1.0, r1.1) {
            Some(r2) => second_piece_range(&t, &quote, r2.0, r2.1),
            None => None,
        },
        None => None,
    };
    let (ts, te) = match tag_range {
        Some(r) => r,
        None => {
            let mut msg = string_of("Failed to parse tag_name from GitHub API response (body length: ");
            push_decimal(&mut msg, json_text.as_bytes().len() as u128);
            msg.append(" bytes)");
            return Err(msg);
        },
    };
    let tag = json_text.substring_char(ts, te);
    if !(te > ts && t[ts] == 'v') {
        let mut msg = string_of("Release tag must start with 'v': ");
        msg.append(tag);
        return Err(msg);
    }
    let version = json_text.substring_char(ts + 1, te);
    assert(version@ =~= tag@.drop_first());
    if parse_version(version).is_none() {
        let mut msg = string_of("Release tag is not strict SemVer: ");
        msg.append(tag);
        return Err(msg);
    }
    let mut suffix_text = string_of("htop-win-");
    suffix_text.append(target_arch(arch));
    suffix_text.append(".exe");
    let suffix = chars_of(suffix_text.as_str());
    let mut from: usize = 0;
    loop
        invariant
            n == t@.len(),
            t@ == json_text@,
            from <= n,
            url_pat@ == "\"browser_download_url\""@,
            url_pat@.len() > 0,
            colon@ == seq![':'],
            quote@ == seq!['"'],
            suffix@ == asset_suffix(arch),
            download_url_from(t@, url_pat@, suffix@, 0) == download_url_from(t@, url_pat@, suffix@, from as int),
            spec_latest_release(json_text@, json_text.spec_bytes().len(), arch) == match download_url_from(t@, url_pat@, suffix@, 0) {
                Some((a, b)) => Ok::<(Seq<char>, Seq<char>), Seq<char>>((version@, json_text@.subrange(a, b))),
                None => Err::<(Seq<char>, Seq<char>), Seq<char>>("Could not find download URL for this architecture (version="@ + version@
                    + ", url_empty=true)"@),
            },
        decreases n + 1 - from,
    {
        let end = match find_in(&t, &url_pat, 0, n, from) {
            Some(e) => e,
            None => n,
        };
        proof {
            lemma_find_from(t@, url_pat@, from as int);
            assert(t@.subrange(0, n as int) =~= t@);
        }
        let piece = piece_url_exec(&t, &colon, &quote, from, end);
        match piece {
            Some((a, b)) => {
                if ends_with_exec(&t, a, b, &suffix) {
                    let url = json_text.substring_char(a, b);
                    return Ok((string_of(version), string_of(url)));
                }
            },
            None => {},
        }
        if end >= n {
            let mut msg = string_of("Could not find download URL for this architecture (version=");
            msg.append(version);
            msg.append(", url_empty=true)");
            return Err(msg);
        }
        from = end + url_pat.len();
    }
}

/// `String::from_utf8`: the text the bytes encode when they are valid
/// UTF-8 (the same bytes, decoded), nothing otherwise.
#[verifier::external_body]
fn string_from_utf8(bytes: Vec<u8>) -> (r: Option<String>)
    ensures
        match r {
            Some(s) => vstd::utf8::valid_utf8(bytes@) && s@ == vstd::utf8::decode_utf8(bytes@),
            None => !vstd::utf8::valid_utf8(bytes@),
        },
{
    String::from_utf8(bytes).ok()
}

/// The latest release from the raw body of the GitHub API response: the
/// body must be UTF-8, and its text is then read as `parse_latest_release`
/// reads it.
pub fn latest_release_from_body(body: &[u8], arch: TargetArch) -> (r: Result<(String, String), String>)
    ensures
        !vstd::utf8::valid_utf8(body@) ==> (r matches Err(e) && e@ == "GitHub API returned invalid UTF-8"@),
        vstd::utf8::valid_utf8(body@) ==> match r {
            Ok((v, u)) => spec_latest_release(vstd::utf8::decode_utf8(body@), body@.len(), arch) == Ok::<
                (Seq<char>, Seq<char>),
                Seq<char>,
            >((v@, u@)),
            Err(e) => spec_latest_release(vstd::utf8::decode_utf8(body@), body@.len(), arch) == Err::<
                (Seq<char>, Seq<char>),
                Seq<char>,
            >(e@),
        },
{
    let mut owned: Vec<u8> = Vec::new();
    let mut i: usize = 0;
    while i < body.len()
        invariant
            i <= body.len(),
            owned@ == body@.take(i as int),
        decreases body.len() - i,
    {
        owned.push(body[i]);
        assert(body@.take(i + 1) =~= body@.take(i as int).push(body@[i as int]));
        i = i + 1;
    }
    assert(body@.take(body@.len() as int) =~= body@);
    match string_from_utf8(owned) {
        None => Err(string_of("GitHub API returned invalid UTF-8")),
        Some(text) => {
            let t = text.as_str();
            proof {
                vstd::utf8::decode_utf8_encode_utf8(body@);
                assert(t.spec_bytes() == body@);
            }
            parse_latest_release(t, arch)
        },
    }
}

} // verus!
