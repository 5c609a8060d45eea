//! Bookkeeping of staged updates: the metadata file written next to a
//! downloaded release, reading it back, and choosing the newest pending
//! release.

use vstd::prelude::*;
use vstd::string::{StringExecFns, StrSliceExecFns, StringSliceAdditionalSpecFns};
use crate::bytes::{str_eq, Order};
use crate::installer::{
    TargetArch, target_arch, spec_target_arch, parse_version, compare_versions, is_newer_version,
    spec_parse_version, spec_is_newer, version_order, SemVersion,
};
use crate::text::string_of;

verus! {

/// The metadata staged with an update: its version and architecture.
pub open spec fn spec_update_metadata(version: Seq<char>, arch: TargetArch) -> Seq<char> {
    "version="@ + version + "\narch="@ + spec_target_arch(arch) + "\n"@
}

pub fn update_metadata(version: &str, arch: TargetArch) -> (r: String)
    ensures
        r@ == spec_update_metadata(version@, arch),
{
    let mut s = string_of("version=");
    s.append(version);
    s.append("\narch=");
    s.append(target_arch(arch));
    s.append("\n");
    s
}

/// Position of the first `c` in `s` at or after `from`.
pub open spec fn find_char_from(s: Seq<char>, c: char, from: int) -> Option<int>
    decreases s.len() - from,
{
    if from >= s.len() {
        None
    } else if s[from] == c {
        Some(from)
    } else {
        find_char_from(s, c, from + 1)
    }
}

/// A line without the `\r` of a `\r\n` ending.
pub open spec fn strip_cr(line: Seq<char>) -> Seq<char> {
    if line.len() > 0 && line.last() == '\r' {
        line.drop_last()
    } else {
        line
    }
}

/// The lines of `s` from position `from` on, as `str::lines` yields them:
/// split at `\n`, a `\r` before the `\n` dropped, no empty line after a
/// final `\n`.
pub open spec fn lines_from(s: Seq<char>, from: int) -> Seq<Seq<char>>
    decreases s.len() - from,
{
    if from < 0 || from >= s.len() {
        Seq::empty()
    } else {
        match find_char_from(s, '\n', from) {
            Some(e) => {
                proof {
                    lemma_find_char_from(s, '\n', from);
                }
                seq![strip_cr(s.subrange(from, e))] + lines_from(s, e + 1)
            },
            None => seq![s.subrange(from, s.len() as int)],
        }
    }
}

/// The text after `version=` on the first line that starts so.
pub open spec fn first_version_line(lines: Seq<Seq<char>>) -> Option<Seq<char>>
    decreases lines.len(),
{
    if lines.len() == 0 {
        None
    } else if lines[0].len() >= 8 && lines[0].take(8) == "version="@ {
        Some(lines[0].skip(8))
    } else {
        first_version_line(lines.drop_first())
    }
}

pub open spec fn missing_version_message() -> Seq<char> {
    "update metadata is missing a version"@
}

pub open spec fn invalid_version_message(version: Seq<char>) -> Seq<char> {
    "update metadata has invalid SemVer: "@ + version
}

pub open spec fn arch_mismatch_message(arch: TargetArch) -> Seq<char> {
    "update metadata architecture does not match "@ + spec_target_arch(arch)
}

/// The version that staged metadata records for `arch`, or why it is
/// unusable.
pub open spec fn spec_metadata_version(metadata: Seq<char>, arch: TargetArch) -> Result<Seq<char>, Seq<char>> {
    let lines = lines_from(metadata, 0);
    match first_version_line(lines) {
        None => Err(missing_version_message()),
        Some(v) => if spec_parse_version(vstd::utf8::encode_utf8(v)) is None {
            Err(invalid_version_message(v))
        } else if !lines.contains("arch="@ + spec_target_arch(arch)) {
            Err(arch_mismatch_message(arch))
        } else {
            Ok(v)
        },
    }
}

pub proof fn lemma_find_char_from(s: Seq<char>, c: char, from: int)
    requires
        0 <= from,
    ensures
        match find_char_from(s, c, from) {
            Some(e) => from <= e < s.len() && s[e] == c && forall|j: int| from <= j < e ==> s[j] != c,
            None => forall|j: int| from <= j < s.len() ==> s[j] != c,
        },
    decreases s.len() - from,
{
    if from < s.len() && s[from] != c {
        lemma_find_char_from(s, c, from + 1);
    }
}

/// End of the line starting at `from` (the next `\n`, or the end).
fn line_end(s: &str, n: usize, from: usize) -> (e: usize)
    requires
        n == s@.len(),
        from <= n,
    ensures
        from <= e <= n,
        match find_char_from(s@, '\n', from as int) {
            Some(x) => e == x,
            None => e == n,
        },
{
    proof {
        lemma_find_char_from(s@, '\n', from as int);
    }
    let mut i = from;
    while i < n
        invariant
            n == s@.len(),
            from <= i <= n,
            forall|j: int| from <= j < i ==> s@[j] != '\n',
            match find_char_from(s@, '\n', from as int) {
                Some(e) => from <= e < s@.len() && s@[e] == '\n' && forall|j: int| from <= j < e ==> s@[j] != '\n',
                None => forall|j: int| from <= j < s@.len() ==> s@[j] != '\n',
            },
        decreases n - i,
    {
        if s.get_char(i) == '\n' {
            return i;
        }
        i = i + 1;
    }
    i
}

/// Read the version out of staged update metadata, checking that it is
/// strict SemVer and that the metadata names the architecture `arch`.
pub fn metadata_version(metadata: &str, arch: TargetArch) -> (r: Result<String, String>)
    ensures
        match r {
            Ok(v) => spec_metadata_version(metadata@, arch) == Ok::<Seq<char>, Seq<char>>(v@),
            Err(e) => spec_metadata_version(metadata@, arch) == Err::<Seq<char>, Seq<char>>(e@),
        },
{
    let n = metadata.unicode_len();
    let ghost m = metadata@;
    let mut arch_line = string_of("arch=");
    arch_line.append(target_arch(arch));
    proof {
        reveal_strlit("version=");
    }
    let mut version: Option<String> = None;
    let mut arch_found = false;
    let mut pos: usize = 0;
    let ghost mut done: Seq<Seq<char>> = Seq::empty();
    while pos < n
        invariant
            n == m.len(),
            m == metadata@,
            arch_line@ == "arch="@ + spec_target_arch(arch),
            0 <= pos <= n,
            lines_from(m, 0) == done + lines_from(m, pos as int),
            match version {
                Some(v) => first_version_line(done) == Some(v@),
                None => first_version_line(done) is None,
            },
            arch_found == done.contains(arch_line@),
        decreases n - pos,
    {
        let e = line_end(metadata, n, pos);
        let mut end = e;
        if e < n && e > pos && metadata.get_char(e - 1) == '\r' {
            end = e - 1;
        }
        let line = metadata.substring_char(pos, end);
        let ghost this = line@;
        proof {
            lemma_find_char_from(m, '\n', pos as int);
            if e < n {
                assert(this =~= strip_cr(m.subrange(pos as int, e as int)));
            } else {
                assert(this =~= m.subrange(pos as int, n as int));
                assert(lines_from(m, n as int) == Seq::<Seq<char>>::empty());
                assert(seq![this] + lines_from(m, n as int) =~= seq![this]);
            }
            assert(lines_from(m, pos as int) == seq![this] + lines_from(m, if e < n { e + 1 } else { n as int }));
        }
        if version.is_none() && line.unicode_len() >= 8 && str_eq(line.substring_char(0, 8), "version=") {
            version = Some(string_of(line.substring_char(8, line.unicode_len())));
            proof {
                assert(this.take(8) =~= line@.subrange(0, 8));
                assert(this.skip(8) =~= line@.subrange(8, line@.len() as int));
            }
        }
        if str_eq(line, arch_line.as_str()) {
            arch_found = true;
        }
        proof {
            lemma_first_version_line_push(done, this);
            lemma_contains_push(done, this, arch_line@);
            done = done.push(this);
            assert(seq![this] + lines_from(m, if e < n { e + 1 } else { n as int }) =~= seq![this].add(lines_from(m, if e < n { e + 1 } else { n as int })));
            assert(done + lines_from(m, if e < n { e + 1 } else { n as int }) =~= done.drop_last() + (seq![this] + lines_from(m, if e < n { e + 1 } else { n as int })));
        }
        pos = if e < n { e + 1 } else { n };
    }
    assert(done =~= lines_from(m, 0));
    match version {
        None => {
            proof {
                reveal_strlit("update metadata is missing a version");
            }
            Err(string_of("update metadata is missing a version"))
        },
        Some(v) => {
            if parse_version(v.as_str()).is_none() {
                let mut msg = string_of("update metadata has invalid SemVer: ");
                msg.append(v.as_str());
                return Err(msg);
            }
            if !arch_found {
                let mut msg = string_of("update metadata architecture does not match ");
                msg.append(target_arch(arch));
                return Err(msg);
            }
            Ok(v)
        },
    }
}

proof fn lemma_first_version_line_push(done: Seq<Seq<char>>, line: Seq<char>)
    ensures
        first_version_line(done.push(line)) == match first_version_line(done) {
            Some(v) => Some(v),
            None => if line.len() >= 8 && line.take(8) == "version="@ {
                Some(line.skip(8))
            } else {
                None
            },
        },
    decreases done.len(),
{
    if done.len() > 0 {
        assert(done.push(line).drop_first() =~= done.drop_first().push(line));
        assert(done.push(line)[0] == done[0]);
        lemma_first_version_line_push(done.drop_first(), line);
    } else {
        assert(done.push(line).drop_first() =~= Seq::<Seq<char>>::empty());
        assert(done.push(line)[0] == line);
        assert(first_version_line(Seq::<Seq<char>>::empty()) is None);
        assert(first_version_line(done) is None);
    }
}

proof fn lemma_contains_push(done: Seq<Seq<char>>, line: Seq<char>, x: Seq<char>)
    ensures
        done.push(line).contains(x) == (done.contains(x) || line == x),
{
    if done.contains(x) {
        let k = choose|k: int| 0 <= k < done.len() && done[k] == x;
        assert(done.push(line)[k] == x);
    }
    if line == x {
        assert(done.push(line)[done.len() as int] == x);
    }
    if done.push(line).contains(x) {
        let k = choose|k: int| 0 <= k < done.push(line).len() && done.push(line)[k] == x;
        if k < done.len() {
            assert(done[k] == x);
        }
    }
}

/// The newest candidate among the first `upto` versions that is newer than
/// `current`; of equal versions the later one.
pub open spec fn newest_upto(versions: Seq<Seq<u8>>, current: Seq<u8>, upto: int) -> Option<int>
    decreases upto,
{
    if upto <= 0 {
        None
    } else {
        let prev = newest_upto(versions, current, upto - 1);
        let i = upto - 1;
        if !spec_is_newer(versions[i], current) {
            prev
        } else {
            match prev {
                None => Some(i),
                Some(b) => if version_order(
                    spec_parse_version(versions[i]).unwrap(),
                    spec_parse_version(versions[b]).unwrap(),
                ) != Order::Less {
                    Some(i)
                } else {
                    prev
                },
            }
        }
    }
}

pub open spec fn version_bytes(versions: Seq<String>) -> Seq<Seq<u8>> {
    versions.map_values(|v: String| vstd::utf8::encode_utf8(v@))
}

/// The pending update to apply: of the staged versions newer than
/// `current`, the newest (the later one of equal versions).
pub fn newest_pending_update(versions: &[String], current: &str) -> (r: Option<usize>)
    ensures
        r == match newest_upto(version_bytes(versions@), current.spec_bytes(), versions@.len() as int) {
            Some(i) => Some(i as usize),
            None => None::<usize>,
        },
        r matches Some(i) ==> i < versions@.len(),
{
    let ghost vb = version_bytes(versions@);
    let mut best: Option<usize> = None;
    let mut best_version: Option<SemVersion> = None;
    let mut i: usize = 0;
    while i < versions.len()
        invariant
            vb == version_bytes(versions@),
            vb.len() == versions@.len(),
            0 <= i <= versions@.len(),
            newest_upto(vb, current.spec_bytes(), i as int) is None <==> best is None,
            best is None ==> best_version is None,
            best matches Some(b) ==> newest_upto(vb, current.spec_bytes(), i as int) == Some(b as int) && b < i,
            best matches Some(b) ==> (best_version matches Some(bv) && spec_parse_version(vb[b as int]) == Some(bv@)),
        decreases versions.len() - i,
    {
        assert(vb[i as int] == vstd::utf8::encode_utf8(versions@[i as int]@));
        let ghost prev = newest_upto(vb, current.spec_bytes(), i as int);
        assert(newest_upto(vb, current.spec_bytes(), i + 1) == if !spec_is_newer(vb[i as int], current.spec_bytes()) {
            prev
        } else {
            match prev {
                None => Some(i as int),
                Some(b) => if version_order(
                    spec_parse_version(vb[i as int]).unwrap(),
                    spec_parse_version(vb[b]).unwrap(),
                ) != Order::Less {
                    Some(i as int)
                } else {
                    prev
                },
            }
        });
        let text = versions[i].as_str();
        assert(text.spec_bytes() == vb[i as int]);
        if is_newer_version(text, current) {
            let parsed = parse_version(text);
            match parsed {
                Some(pv) => {
                    assert(spec_parse_version(vb[i as int]) == Some(pv@));
                    let replace = match &best_version {
                        None => true,
                        Some(bv) => match compare_versions(&pv, bv) {
                            Order::Less => false,
                            _ => true,
                        },
                    };
                    if replace {
                        best = Some(i);
                        best_version = Some(pv);
                    }
                },
                None => {
                    assert(false);
                },
            }
        }
        i = i + 1;
    }
    best
}

} // verus!
