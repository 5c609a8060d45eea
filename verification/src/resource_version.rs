//! The four numeric fields of a Windows VERSIONINFO resource, derived from
//! the package's SemVer version.

use vstd::prelude::*;
use vstd::string::{StringExecFns, StrSliceExecFns};
use crate::text::{decimal, push_decimal, string_of};

verus! {

/// End of the `MAJOR.MINOR.PATCH` core: the first `+` or `-`, or the end.
pub open spec fn core_end(v: Seq<char>) -> int
    decreases v.len(),
{
    if v.len() == 0 {
        0
    } else if v[0] == '+' || v[0] == '-' {
        0
    } else {
        1 + core_end(v.drop_first())
    }
}

/// Positions of the dots in `s`, in order.
pub open spec fn dots(s: Seq<char>) -> Seq<int>
    decreases s.len(),
{
    if s.len() == 0 {
        Seq::empty()
    } else if s.last() == '.' {
        dots(s.drop_last()).push(s.len() - 1)
    } else {
        dots(s.drop_last())
    }
}

/// The three dot-separated parts of a core with exactly two dots.
pub open spec fn core_parts(core: Seq<char>) -> Seq<Seq<char>> {
    let d = dots(core);
    seq![core.subrange(0, d[0]), core.subrange(d[0] + 1, d[1]), core.subrange(d[1] + 1, core.len() as int)]
}

/// The core has three non-empty parts.
pub open spec fn has_three_part_core(core: Seq<char>) -> bool {
    dots(core).len() == 2 && core_parts(core)[0].len() > 0 && core_parts(core)[1].len() > 0
        && core_parts(core)[2].len() > 0
}

pub open spec fn is_digit_char(c: char) -> bool {
    '0' <= c <= '9'
}

/// The number written by the decimal digits `s`.
pub open spec fn digits_value(s: Seq<char>) -> nat
    decreases s.len(),
{
    if s.len() == 0 {
        0
    } else {
        digits_value(s.drop_last()) * 10 + (s.last() as nat - '0' as nat) as nat
    }
}

/// `s` reads as a `u16`: decimal digits only, at most 65535.
pub open spec fn fits_u16(s: Seq<char>) -> bool {
    s.len() > 0 && (forall|i: int| 0 <= i < s.len() ==> is_digit_char(#[trigger] s[i])) && digits_value(s)
        <= 65535
}

pub open spec fn core_message(version: Seq<char>) -> Seq<char> {
    "package version '"@ + version + "' does not have a three-part SemVer core"@
}

pub open spec fn component_message(part: Seq<char>, version: Seq<char>) -> Seq<char> {
    "SemVer core component '"@ + part + "' in '"@ + version
        + "' exceeds the Windows resource limit of 65535"@
}

/// The resource version of `version`: the three core numbers and a zero,
/// comma separated, or the error for the first problem found.
pub open spec fn spec_resource_version(version: Seq<char>) -> Result<Seq<char>, Seq<char>> {
    let core = version.take(core_end(version));
    if !has_three_part_core(core) {
        Err(core_message(version))
    } else {
        let p = core_parts(core);
        if !fits_u16(p[0]) {
            Err(component_message(p[0], version))
        } else if !fits_u16(p[1]) {
            Err(component_message(p[1], version))
        } else if !fits_u16(p[2]) {
            Err(component_message(p[2], version))
        } else {
            Ok(decimal(digits_value(p[0])) + ","@ + decimal(digits_value(p[1])) + ","@ + decimal(
                digits_value(p[2]),
            ) + ",0"@)
        }
    }
}

proof fn lemma_core_end(v: Seq<char>)
    ensures
        0 <= core_end(v) <= v.len(),
        forall|i: int| 0 <= i < core_end(v) ==> v[i] != '+' && v[i] != '-',
        core_end(v) < v.len() ==> (v[core_end(v)] == '+' || v[core_end(v)] == '-'),
    decreases v.len(),
{
    if v.len() > 0 && v[0] != '+' && v[0] != '-' {
        lemma_core_end(v.drop_first());
        assert forall|i: int| 1 <= i < core_end(v) implies v[i] == v.drop_first()[i - 1] by {}
    }
}

/// Index of the first `+` or `-` in `version` (its length when none).
fn find_core_end(version: &str, n: usize) -> (e: usize)
    requires
        n == version@.len(),
    ensures
        e == core_end(version@),
{
    proof {
        lemma_core_end(version@);
    }
    let mut i: usize = 0;
    while i < n
        invariant
            n == version@.len(),
            0 <= i <= n,
            forall|j: int| 0 <= j < i ==> version@[j] != '+' && version@[j] != '-',
            0 <= core_end(version@) <= version@.len(),
            forall|j: int| 0 <= j < core_end(version@) ==> version@[j] != '+' && version@[j] != '-',
            core_end(version@) < version@.len() ==> (version@[core_end(version@)] == '+'
                || version@[core_end(version@)] == '-'),
        decreases n - i,
    {
        let c = version.get_char(i);
        if c == '+' || c == '-' {
            return i;
        }
        i = i + 1;
    }
    i
}

/// Positions of the dots among the first `e` characters.
fn find_dots(version: &str, e: usize) -> (d: Vec<usize>)
    requires
        e <= version@.len(),
    ensures
        d@.len() == dots(version@.take(e as int)).len(),
        forall|k: int| 0 <= k < d@.len() ==> d@[k] as int == dots(version@.take(e as int))[k],
{
    let mut d: Vec<usize> = Vec::new();
    let mut i: usize = 0;
    assert(version@.take(0) =~= Seq::<char>::empty());
    while i < e
        invariant
            e <= version@.len(),
            0 <= i <= e,
            d@.len() == dots(version@.take(i as int)).len(),
            forall|k: int| 0 <= k < d@.len() ==> d@[k] as int == dots(version@.take(i as int))[k],
        decreases e - i,
    {
        let c = version.get_char(i);
        assert(version@.take(i + 1).drop_last() =~= version@.take(i as int));
        assert(version@.take(i + 1).last() == c);
        if c == '.' {
            d.push(i);
        }
        i = i + 1;
    }
    d
}

/// The `u16` written by the characters `from..to` of `s`, if they are one.
fn parse_u16_part(s: &str, from: usize, to: usize) -> (r: Option<u16>)
    requires
        from <= to <= s@.len(),
    ensures
        match r {
            Some(n) => fits_u16(s@.subrange(from as int, to as int)) && n as nat == digits_value(
                s@.subrange(from as int, to as int),
            ),
            None => !fits_u16(s@.subrange(from as int, to as int)),
        },
{
    let ghost part = s@.subrange(from as int, to as int);
    if from == to {
        return None;
    }
    let mut value: u32 = 0;
    let mut i = from;
    assert(s@.subrange(from as int, from as int) =~= Seq::<char>::empty());
    while i < to
        invariant
            from <= i <= to <= s@.len(),
            part == s@.subrange(from as int, to as int),
            forall|j: int| from <= j < i ==> is_digit_char(s@[j]),
            value as nat == digits_value(s@.subrange(from as int, i as int)),
            value <= 65535,
        decreases to - i,
    {
        let c = s.get_char(i);
        let ghost pre = s@.subrange(from as int, i as int);
        let ghost next = s@.subrange(from as int, i + 1);
        assert(next.drop_last() =~= pre);
        assert(next.last() == c);
        if c < '0' || c > '9' {
            assert(part[i - from] == c);
            return None;
        }
        let digit = (c as u32) - ('0' as u32);
        let bigger = value * 10 + digit;
        assert(bigger == digits_value(next));
        if bigger > 65535 {
            proof {
                assert(part.subrange(0, (i + 1 - from) as int) =~= next);
                if forall|j: int| 0 <= j < part.len() ==> is_digit_char(#[trigger] part[j]) {
                    lemma_digits_value_prefix(part, (i + 1 - from) as int);
                }
            }
            return None;
        }
        value = bigger;
        i = i + 1;
    }
    assert(s@.subrange(from as int, to as int) =~= part);
    assert forall|j: int| 0 <= j < part.len() implies is_digit_char(#[trigger] part[j]) by {
        assert(part[j] == s@[from + j]);
    }
    Some(value as u16)
}

/// A prefix of digits never reads larger than the whole.
proof fn lemma_digits_value_prefix(s: Seq<char>, k: int)
    requires
        0 <= k <= s.len(),
        forall|i: int| 0 <= i < s.len() ==> is_digit_char(#[trigger] s[i]),
    ensures
        digits_value(s.subrange(0, k)) <= digits_value(s),
    decreases s.len() - k,
{
    if k < s.len() {
        let t = s.subrange(0, k + 1);
        assert(t.drop_last() =~= s.subrange(0, k));
        assert(is_digit_char(s[k]));
        assert(t.subrange(0, k) =~= s.subrange(0, k));
        lemma_digits_value_prefix(s, k + 1);
    } else {
        assert(s.subrange(0, k) =~= s);
    }
}

fn push_str_chars(out: &mut String, s: &str, from: usize, to: usize)
    requires
        from <= to <= s@.len(),
    ensures
        final(out)@ == old(out)@ + s@.subrange(from as int, to as int),
{
    out.append(s.substring_char(from, to));
}

fn component_error(version: &str, from: usize, to: usize) -> (r: String)
    requires
        from <= to <= version@.len(),
    ensures
        r@ == component_message(version@.subrange(from as int, to as int), version@),
{
    let mut msg = string_of("SemVer core component '");
    push_str_chars(&mut msg, version, from, to);
    msg.append("' in '");
    msg.append(version);
    msg.append("' exceeds the Windows resource limit of 65535");
    msg
}

/// Convert Cargo SemVer to the four numeric fields supported by VERSIONINFO.
/// Windows only accepts the three numeric core components; prerelease and
/// build identifiers are dropped.
pub fn windows_resource_version(version: &str) -> (r: Result<String, String>)
    ensures
        match r {
            Ok(s) => spec_resource_version(version@) == Ok::<Seq<char>, Seq<char>>(s@),
            Err(e) => spec_resource_version(version@) == Err::<Seq<char>, Seq<char>>(e@),
        },
{
    let n = version.unicode_len();
    let e = find_core_end(version, n);
    let ghost core = version@.take(e as int);
    proof {
        lemma_core_end(version@);
        lemma_dots_in_range(core);
    }
    let d = find_dots(version, e);
    if d.len() != 2 || d[0] == 0 || d[1] == d[0] + 1 || d[1] + 1 == e {
        proof {
            if dots(core).len() == 2 {
                lemma_dots_in_range(core);
            }
        }
        let mut msg = string_of("package version '");
        msg.append(version);
        msg.append("' does not have a three-part SemVer core");
        return Err(msg);
    }
    proof {
        lemma_dots_in_range(core);
        assert(core_parts(core)[0] =~= version@.subrange(0, d[0] as int));
        assert(core_parts(core)[1] =~= version@.subrange(d[0] + 1, d[1] as int));
        assert(core_parts(core)[2] =~= version@.subrange(d[1] + 1, e as int));
    }
    let a = match parse_u16_part(version, 0, d[0]) {
        Some(v) => v,
        None => {
            return Err(component_error(version, 0, d[0]));
        },
    };
    let b = match parse_u16_part(version, d[0] + 1, d[1]) {
        Some(v) => v,
        None => {
            return Err(component_error(version, d[0] + 1, d[1]));
        },
    };
    let c = match parse_u16_part(version, d[1] + 1, e) {
        Some(v) => v,
        None => {
            return Err(component_error(version, d[1] + 1, e));
        },
    };
    let mut out = String::new();
    push_decimal(&mut out, a as u128);
    out.append(",");
    push_decimal(&mut out, b as u128);
    out.append(",");
    push_decimal(&mut out, c as u128);
    out.append(",0");
    Ok(out)
}

/// The dots of `s` lie inside it, in increasing order.
proof fn lemma_dots_in_range(s: Seq<char>)
    ensures
        forall|k: int| 0 <= k < dots(s).len() ==> 0 <= #[trigger] dots(s)[k] < s.len() && s[dots(s)[k]] == '.',
        forall|i: int, j: int| 0 <= i < j < dots(s).len() ==> dots(s)[i] < dots(s)[j],
    decreases s.len(),
{
    if s.len() > 0 {
        let t = s.drop_last();
        lemma_dots_in_range(t);
        assert forall|k: int| 0 <= k < dots(t).len() implies s[dots(t)[k]] == t[dots(t)[k]] by {}
    }
}

} // verus!
