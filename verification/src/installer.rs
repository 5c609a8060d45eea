//! Release versions and downloaded executables: strict SemVer parsing and
//! precedence, and the checks a downloaded file must pass before it may
//! replace the running executable.

use vstd::prelude::*;
use vstd::string::StringSliceAdditionalSpecFns;
use vstd::string::StringExecFns;
use crate::bytes::{
    Order, order_nat, order_usize, lex_order, lex_compare, split_on, split_bytes, find_first,
    find_byte, copy_range, is_digit, is_alnum, all_digits, is_all_digits,
};

verus! {

// ---------------------------------------------------------------------------
// SemVer
// ---------------------------------------------------------------------------

/// A parsed version: three numeric core identifiers and optional
/// pre-release identifiers (build metadata is validated and dropped).
#[derive(Debug, Clone, PartialEq, Eq)]
pub struct SemVersion {
    pub core: Vec<Vec<u8>>,
    pub prerelease: Option<Vec<Vec<u8>>>,
}

/// Mathematical model of a parsed version.
pub struct SpecSemVersion {
    pub core: Seq<Seq<u8>>,
    pub prerelease: Option<Seq<Seq<u8>>>,
}

impl View for SemVersion {
    type V = SpecSemVersion;

    open spec fn view(&self) -> SpecSemVersion {
        SpecSemVersion {
            core: self.core.deep_view(),
            prerelease: match &self.prerelease {
                Some(p) => Some(p.deep_view()),
                None => None,
            },
        }
    }
}

pub open spec fn byte_v() -> u8 {
    0x76u8
}

pub open spec fn byte_plus() -> u8 {
    0x2bu8
}

pub open spec fn byte_minus() -> u8 {
    0x2du8
}

pub open spec fn byte_dot() -> u8 {
    0x2eu8
}

pub open spec fn byte_zero() -> u8 {
    0x30u8
}

/// Non-empty, ASCII alphanumerics and hyphens only.
pub open spec fn spec_valid_identifier(s: Seq<u8>) -> bool {
    &&& s.len() > 0
    &&& forall|i: int| 0 <= i < s.len() ==> (is_alnum(#[trigger] s[i]) || s[i] == byte_minus())
}

/// Non-empty digits without a leading zero (a lone "0" is allowed).
pub open spec fn spec_valid_numeric_identifier(s: Seq<u8>) -> bool {
    &&& s.len() > 0
    &&& all_digits(s)
    &&& (s.len() == 1 || s[0] != byte_zero())
}

/// A pre-release identifier: valid, and numeric ones without leading zeros.
pub open spec fn spec_valid_prerelease_identifier(s: Seq<u8>) -> bool {
    spec_valid_identifier(s) && (all_digits(s) ==> spec_valid_numeric_identifier(s))
}

pub open spec fn strip_v(s: Seq<u8>) -> Seq<u8> {
    if s.len() > 0 && s[0] == byte_v() {
        s.drop_first()
    } else {
        s
    }
}

/// `v` without its `+BUILD` suffix.
pub open spec fn spec_without_build(v: Seq<u8>) -> Seq<u8> {
    match find_first(v, byte_plus()) {
        Some(i) => v.take(i),
        None => v,
    }
}

/// Every dot-separated build identifier after the first `+` is valid.
pub open spec fn spec_build_ok(v: Seq<u8>) -> bool {
    match find_first(v, byte_plus()) {
        Some(i) => forall|k: int|
            0 <= k < split_on(v.skip(i + 1), byte_dot()).len() ==> spec_valid_identifier(
                #[trigger] split_on(v.skip(i + 1), byte_dot())[k],
            ),
        None => true,
    }
}

/// The `MAJOR.MINOR.PATCH` part of a version without build metadata.
pub open spec fn spec_core_text(wb: Seq<u8>) -> Seq<u8> {
    match find_first(wb, byte_minus()) {
        Some(j) => wb.take(j),
        None => wb,
    }
}

/// Three valid numeric identifiers.
pub open spec fn spec_core_ok(core: Seq<Seq<u8>>) -> bool {
    core.len() == 3 && forall|k: int| 0 <= k < 3 ==> spec_valid_numeric_identifier(#[trigger] core[k])
}

/// The version a string denotes: one optional `v`, then strict SemVer
/// `MAJOR.MINOR.PATCH[-PRERELEASE][+BUILD]`.
pub open spec fn spec_parse_version(text: Seq<u8>) -> Option<SpecSemVersion> {
    let v = strip_v(text);
    let without_build = spec_without_build(v);
    let core = split_on(spec_core_text(without_build), byte_dot());
    if !spec_build_ok(v) || !spec_core_ok(core) {
        None
    } else {
        match find_first(without_build, byte_minus()) {
            None => Some(SpecSemVersion { core, prerelease: None }),
            Some(j) => {
                let ids = split_on(without_build.skip(j + 1), byte_dot());
                if forall|k: int|
                    0 <= k < ids.len() ==> spec_valid_prerelease_identifier(#[trigger] ids[k]) {
                    Some(SpecSemVersion { core, prerelease: Some(ids) })
                } else {
                    None
                }
            },
        }
    }
}

fn valid_identifier(identifier: &[u8]) -> (r: bool)
    ensures
        r == spec_valid_identifier(identifier@),
{
    if identifier.len() == 0 {
        return false;
    }
    let mut i: usize = 0;
    while i < identifier.len()
        invariant
            i <= identifier.len(),
            forall|k: int|
                0 <= k < i ==> (is_alnum(#[trigger] identifier@[k]) || identifier@[k]
                    == byte_minus()),
        decreases identifier.len() - i,
    {
        let b = identifier[i];
        let ok = (0x30 <= b && b <= 0x39) || (0x41 <= b && b <= 0x5a) || (0x61 <= b && b <= 0x7a)
            || b == 0x2d;
        if !ok {
            return false;
        }
        i = i + 1;
    }
    true
}

fn valid_numeric_identifier(identifier: &[u8]) -> (r: bool)
    ensures
        r == spec_valid_numeric_identifier(identifier@),
{
    identifier.len() > 0 && is_all_digits(identifier) && (identifier.len() == 1 || identifier[0]
        != 0x30)
}

fn valid_prerelease_identifier(identifier: &[u8]) -> (r: bool)
    ensures
        r == spec_valid_prerelease_identifier(identifier@),
{
    valid_identifier(identifier) && (!is_all_digits(identifier) || valid_numeric_identifier(
        identifier,
    ))
}

fn all_valid_identifiers(ids: &Vec<Vec<u8>>) -> (r: bool)
    ensures
        r == (forall|k: int|
            0 <= k < ids.deep_view().len() ==> spec_valid_identifier(
                #[trigger] ids.deep_view()[k],
            )),
{
    let mut i: usize = 0;
    while i < ids.len()
        invariant
            i <= ids.len(),
            forall|k: int| 0 <= k < i ==> spec_valid_identifier(#[trigger] ids.deep_view()[k]),
        decreases ids.len() - i,
    {
        assert(ids[i as int].deep_view() =~= ids[i as int]@);
        assert(ids.deep_view()[i as int] == ids[i as int].deep_view());
        if !valid_identifier(ids[i].as_slice()) {
            return false;
        }
        i = i + 1;
    }
    true
}

fn all_valid_prerelease_identifiers(ids: &Vec<Vec<u8>>) -> (r: bool)
    ensures
        r == (forall|k: int|
            0 <= k < ids.deep_view().len() ==> spec_valid_prerelease_identifier(
                #[trigger] ids.deep_view()[k],
            )),
{
    let mut i: usize = 0;
    while i < ids.len()
        invariant
            i <= ids.len(),
            forall|k: int|
                0 <= k < i ==> spec_valid_prerelease_identifier(#[trigger] ids.deep_view()[k]),
        decreases ids.len() - i,
    {
        assert(ids[i as int].deep_view() =~= ids[i as int]@);
        assert(ids.deep_view()[i as int] == ids[i as int].deep_view());
        if !valid_prerelease_identifier(ids[i].as_slice()) {
            return false;
        }
        i = i + 1;
    }
    true
}

/// Parse one optional `v` prefix followed by a strict SemVer string.
pub fn parse_version(version: &str) -> (r: Option<SemVersion>)
    ensures
        match r {
            Some(parsed) => spec_parse_version(version.spec_bytes()) == Some(parsed@),
            None => spec_parse_version(version.spec_bytes()) is None,
        },
{
    let text = version.as_bytes();
    let start: usize = if text.len() > 0 && text[0] == 0x76 {
        1
    } else {
        0
    };
    let v = copy_range(text, start, text.len());
    assert(v@ =~= strip_v(text@));
    let plus = find_byte(v.as_slice(), 0x2b);
    let ghost sv = strip_v(version.spec_bytes());
    let ghost spec_wb = spec_without_build(sv);
    let (without_build, build_ok) = match plus {
        Some(i) => {
            let build = copy_range(v.as_slice(), i + 1, v.len());
            assert(build@ =~= v@.skip(i + 1));
            let ids = split_bytes(build.as_slice(), 0x2e);
            let wb = copy_range(v.as_slice(), 0, i);
            assert(wb@ =~= v@.take(i as int));
            let ok = all_valid_identifiers(&ids);
            assert(ok == spec_build_ok(sv));
            (wb, ok)
        },
        None => {
            let wb = copy_range(v.as_slice(), 0, v.len());
            assert(wb@ =~= v@);
            (wb, true)
        },
    };
    assert(without_build@ == spec_wb);
    let minus = find_byte(without_build.as_slice(), 0x2d);
    let core_text = match minus {
        Some(j) => {
            let c = copy_range(without_build.as_slice(), 0, j);
            assert(c@ =~= without_build@.take(j as int));
            c
        },
        None => {
            let c = copy_range(without_build.as_slice(), 0, without_build.len());
            assert(c@ =~= without_build@);
            c
        },
    };
    let core = split_bytes(core_text.as_slice(), 0x2e);
    assert(core_text@ == spec_core_text(spec_wb));
    assert(build_ok == spec_build_ok(sv));
    if !build_ok {
        return None;
    }
    if core.len() != 3 {
        return None;
    }
    assert(core[0]@ =~= core.deep_view()[0]);
    assert(core[1]@ =~= core.deep_view()[1]);
    assert(core[2]@ =~= core.deep_view()[2]);
    if !valid_numeric_identifier(core[0].as_slice()) || !valid_numeric_identifier(
        core[1].as_slice(),
    ) || !valid_numeric_identifier(core[2].as_slice()) {
        assert(!(forall|k: int|
            0 <= k < 3 ==> spec_valid_numeric_identifier(#[trigger] core.deep_view()[k])));
        return None;
    }
    assert(forall|k: int|
        0 <= k < 3 ==> spec_valid_numeric_identifier(#[trigger] core.deep_view()[k])) by {
        assert forall|k: int| 0 <= k < 3 implies spec_valid_numeric_identifier(
            #[trigger] core.deep_view()[k],
        ) by {
            if k == 0 {
            } else if k == 1 {
            } else {
            }
        }
    }
    match minus {
        None => Some(SemVersion { core, prerelease: None }),
        Some(j) => {
            let pre_text = copy_range(without_build.as_slice(), j + 1, without_build.len());
            assert(pre_text@ =~= without_build@.skip(j + 1));
            let ids = split_bytes(pre_text.as_slice(), 0x2e);
            if all_valid_prerelease_identifiers(&ids) {
                Some(SemVersion { core, prerelease: Some(ids) })
            } else {
                None
            }
        },
    }
}

// ---------------------------------------------------------------------------
// Precedence
// ---------------------------------------------------------------------------

/// Numeric identifiers: the shorter is smaller (no leading zeros), equal
/// lengths compare digit by digit.
pub open spec fn numeric_order(a: Seq<u8>, b: Seq<u8>) -> Order {
    if a.len() != b.len() {
        order_nat(a.len(), b.len())
    } else {
        lex_order(a, b)
    }
}

/// Pre-release identifiers: numeric ones order numerically and below
/// alphanumeric ones, which order lexically.
pub open spec fn identifier_order(a: Seq<u8>, b: Seq<u8>) -> Order {
    if all_digits(a) && all_digits(b) {
        numeric_order(a, b)
    } else if all_digits(a) {
        Order::Less
    } else if all_digits(b) {
        Order::Greater
    } else {
        lex_order(a, b)
    }
}

/// Core identifiers compared pairwise, first difference decides.
pub open spec fn core_order(a: Seq<Seq<u8>>, b: Seq<Seq<u8>>) -> Order
    decreases a.len(),
{
    if a.len() == 0 || b.len() == 0 {
        Order::Equal
    } else if numeric_order(a[0], b[0]) != Order::Equal {
        numeric_order(a[0], b[0])
    } else {
        core_order(a.drop_first(), b.drop_first())
    }
}

/// Pre-release lists compared pairwise; a proper prefix is smaller.
pub open spec fn prerelease_order(a: Seq<Seq<u8>>, b: Seq<Seq<u8>>) -> Order
    decreases a.len(),
{
    if a.len() == 0 || b.len() == 0 {
        order_nat(a.len(), b.len())
    } else if identifier_order(a[0], b[0]) != Order::Equal {
        identifier_order(a[0], b[0])
    } else {
        prerelease_order(a.drop_first(), b.drop_first())
    }
}

/// SemVer precedence: core first; a release outranks its pre-releases.
pub open spec fn version_order(a: SpecSemVersion, b: SpecSemVersion) -> Order {
    if core_order(a.core, b.core) != Order::Equal {
        core_order(a.core, b.core)
    } else {
        match (a.prerelease, b.prerelease) {
            (None, None) => Order::Equal,
            (None, Some(_)) => Order::Greater,
            (Some(_), None) => Order::Less,
            (Some(x), Some(y)) => prerelease_order(x, y),
        }
    }
}

/// `a` is a valid version that takes precedence over the valid version `b`.
pub open spec fn spec_is_newer(a: Seq<u8>, b: Seq<u8>) -> bool {
    match (spec_parse_version(a), spec_parse_version(b)) {
        (Some(va), Some(vb)) => version_order(va, vb) == Order::Greater,
        _ => false,
    }
}

fn compare_numeric_identifier(a: &[u8], b: &[u8]) -> (r: Order)
    ensures
        r == numeric_order(a@, b@),
{
    if a.len() != b.len() {
        order_usize(a.len(), b.len())
    } else {
        lex_compare(a, b)
    }
}

fn compare_identifier(a: &[u8], b: &[u8]) -> (r: Order)
    ensures
        r == identifier_order(a@, b@),
{
    let a_numeric = is_all_digits(a);
    let b_numeric = is_all_digits(b);
    if a_numeric && b_numeric {
        compare_numeric_identifier(a, b)
    } else if a_numeric {
        Order::Less
    } else if b_numeric {
        Order::Greater
    } else {
        lex_compare(a, b)
    }
}

/// Precedence of two parsed versions.
pub fn compare_versions(a: &SemVersion, b: &SemVersion) -> (r: Order)
    ensures
        r == version_order(a@, b@),
{
    let ghost ac = a.core.deep_view();
    let ghost bc = b.core.deep_view();
    let mut i: usize = 0;
    let n = if a.core.len() < b.core.len() {
        a.core.len()
    } else {
        b.core.len()
    };
    assert(ac.skip(0) =~= ac);
    assert(bc.skip(0) =~= bc);
    while i < n
        invariant
            n <= a.core.len(),
            n <= b.core.len(),
            n == a.core.len() || n == b.core.len(),
            ac == a.core.deep_view(),
            bc == b.core.deep_view(),
            i <= n,
            core_order(ac, bc) == core_order(ac.skip(i as int), bc.skip(i as int)),
        decreases n - i,
    {
        assert(a.core[i as int]@ =~= ac[i as int]);
        assert(b.core[i as int]@ =~= bc[i as int]);
        assert(ac.skip(i as int)[0] == ac[i as int]);
        assert(bc.skip(i as int)[0] == bc[i as int]);
        let o = compare_numeric_identifier(a.core[i].as_slice(), b.core[i].as_slice());
        if !o.is_equal() {
            return o;
        }
        assert(ac.skip(i as int).drop_first() =~= ac.skip(i + 1));
        assert(bc.skip(i as int).drop_first() =~= bc.skip(i + 1));
        i = i + 1;
    }
    assert(ac.skip(i as int).len() == 0 || bc.skip(i as int).len() == 0);
    match (&a.prerelease, &b.prerelease) {
        (None, None) => Order::Equal,
        (None, Some(_)) => Order::Greater,
        (Some(_), None) => Order::Less,
        (Some(x), Some(y)) => compare_prerelease(x, y),
    }
}

fn compare_prerelease(a: &Vec<Vec<u8>>, b: &Vec<Vec<u8>>) -> (r: Order)
    ensures
        r == prerelease_order(a.deep_view(), b.deep_view()),
{
    let ghost av = a.deep_view();
    let ghost bv = b.deep_view();
    let mut i: usize = 0;
    assert(av.skip(0) =~= av);
    assert(bv.skip(0) =~= bv);
    while i < a.len() && i < b.len()
        invariant
            av == a.deep_view(),
            bv == b.deep_view(),
            i <= a.len(),
            i <= b.len(),
            prerelease_order(av, bv) == prerelease_order(av.skip(i as int), bv.skip(i as int)),
        decreases a.len() - i,
    {
        assert(a[i as int]@ =~= av[i as int]);
        assert(b[i as int]@ =~= bv[i as int]);
        assert(av.skip(i as int)[0] == av[i as int]);
        assert(bv.skip(i as int)[0] == bv[i as int]);
        let o = compare_identifier(a[i].as_slice(), b[i].as_slice());
        if !o.is_equal() {
            return o;
        }
        assert(av.skip(i as int).drop_first() =~= av.skip(i + 1));
        assert(bv.skip(i as int).drop_first() =~= bv.skip(i + 1));
        i = i + 1;
    }
    order_usize(a.len(), b.len())
}

/// True if `a` and `b` are both valid versions and `a` is newer than `b`.
pub fn is_newer_version(a: &str, b: &str) -> (r: bool)
    ensures
        r == spec_is_newer(a.spec_bytes(), b.spec_bytes()),
{
    match (parse_version(a), parse_version(b)) {
        (Some(va), Some(vb)) => {
            let o = compare_versions(&va, &vb);
            match o {
                Order::Greater => true,
                _ => false,
            }
        },
        _ => false,
    }
}

} // verus!

verus! {

// ---------------------------------------------------------------------------
// Precedence is a strict total order on valid versions
// ---------------------------------------------------------------------------

proof fn lemma_numeric_order_flip(a: Seq<u8>, b: Seq<u8>)
    ensures
        numeric_order(b, a) == numeric_order(a, b).flip(),
{
    crate::bytes::lemma_lex_order_flip(a, b);
}

proof fn lemma_numeric_order_equal(a: Seq<u8>, b: Seq<u8>)
    ensures
        (numeric_order(a, b) == Order::Equal) == (a == b),
{
    crate::bytes::lemma_lex_order_equal(a, b);
}

proof fn lemma_numeric_order_trans(a: Seq<u8>, b: Seq<u8>, c: Seq<u8>, o: Order)
    requires
        o != Order::Equal,
        numeric_order(a, b) == o,
        numeric_order(b, c) == o,
    ensures
        numeric_order(a, c) == o,
{
    if a.len() == b.len() && b.len() == c.len() {
        crate::bytes::lemma_lex_order_transitive(a, b, c, o);
    }
}

proof fn lemma_identifier_order_flip(a: Seq<u8>, b: Seq<u8>)
    ensures
        identifier_order(b, a) == identifier_order(a, b).flip(),
{
    lemma_numeric_order_flip(a, b);
    crate::bytes::lemma_lex_order_flip(a, b);
}

proof fn lemma_identifier_order_equal(a: Seq<u8>, b: Seq<u8>)
    ensures
        (identifier_order(a, b) == Order::Equal) == (a == b),
{
    lemma_numeric_order_equal(a, b);
    crate::bytes::lemma_lex_order_equal(a, b);
}

proof fn lemma_identifier_order_trans(a: Seq<u8>, b: Seq<u8>, c: Seq<u8>, o: Order)
    requires
        o != Order::Equal,
        identifier_order(a, b) == o,
        identifier_order(b, c) == o,
    ensures
        identifier_order(a, c) == o,
{
    if all_digits(a) && all_digits(b) && all_digits(c) {
        lemma_numeric_order_trans(a, b, c, o);
    } else if !all_digits(a) && !all_digits(b) && !all_digits(c) {
        crate::bytes::lemma_lex_order_transitive(a, b, c, o);
    }
}

proof fn lemma_core_order_flip(a: Seq<Seq<u8>>, b: Seq<Seq<u8>>)
    ensures
        core_order(b, a) == core_order(a, b).flip(),
    decreases a.len(),
{
    if a.len() > 0 && b.len() > 0 {
        lemma_numeric_order_flip(a[0], b[0]);
        lemma_core_order_flip(a.drop_first(), b.drop_first());
    }
}

proof fn lemma_core_order_equal(a: Seq<Seq<u8>>, b: Seq<Seq<u8>>)
    requires
        a.len() == b.len(),
    ensures
        (core_order(a, b) == Order::Equal) == (a == b),
    decreases a.len(),
{
    if a.len() > 0 {
        lemma_numeric_order_equal(a[0], b[0]);
        lemma_core_order_equal(a.drop_first(), b.drop_first());
        if a[0] == b[0] && a.drop_first() == b.drop_first() {
            assert(a =~= seq![a[0]] + a.drop_first());
            assert(b =~= seq![b[0]] + b.drop_first());
        }
        if a == b {
            assert(a.drop_first() == b.drop_first());
        }
    } else {
        assert(a =~= b);
    }
}

proof fn lemma_core_order_trans(a: Seq<Seq<u8>>, b: Seq<Seq<u8>>, c: Seq<Seq<u8>>, o: Order)
    requires
        o != Order::Equal,
        a.len() == b.len(),
        b.len() == c.len(),
        core_order(a, b) == o,
        core_order(b, c) == o,
    ensures
        core_order(a, c) == o,
    decreases a.len(),
{
    if a.len() > 0 {
        lemma_numeric_order_equal(a[0], b[0]);
        lemma_numeric_order_equal(b[0], c[0]);
        let x = numeric_order(a[0], b[0]);
        let y = numeric_order(b[0], c[0]);
        if x == o && y == o {
            lemma_numeric_order_trans(a[0], b[0], c[0], o);
        } else if x == Order::Equal && y == Order::Equal {
            lemma_core_order_trans(a.drop_first(), b.drop_first(), c.drop_first(), o);
        }
    }
}

proof fn lemma_prerelease_order_flip(a: Seq<Seq<u8>>, b: Seq<Seq<u8>>)
    ensures
        prerelease_order(b, a) == prerelease_order(a, b).flip(),
    decreases a.len(),
{
    if a.len() > 0 && b.len() > 0 {
        lemma_identifier_order_flip(a[0], b[0]);
        lemma_prerelease_order_flip(a.drop_first(), b.drop_first());
    }
}

proof fn lemma_prerelease_order_refl(a: Seq<Seq<u8>>)
    ensures
        prerelease_order(a, a) == Order::Equal,
    decreases a.len(),
{
    if a.len() > 0 {
        lemma_identifier_order_equal(a[0], a[0]);
        lemma_prerelease_order_refl(a.drop_first());
    }
}

proof fn lemma_prerelease_order_trans(
    a: Seq<Seq<u8>>,
    b: Seq<Seq<u8>>,
    c: Seq<Seq<u8>>,
    o: Order,
)
    requires
        o != Order::Equal,
        prerelease_order(a, b) == o,
        prerelease_order(b, c) == o,
    ensures
        prerelease_order(a, c) == o,
    decreases a.len(),
{
    if a.len() > 0 && b.len() > 0 && c.len() > 0 {
        lemma_identifier_order_equal(a[0], b[0]);
        lemma_identifier_order_equal(b[0], c[0]);
        let x = identifier_order(a[0], b[0]);
        let y = identifier_order(b[0], c[0]);
        if x == o && y == o {
            lemma_identifier_order_trans(a[0], b[0], c[0], o);
        } else if x == Order::Equal && y == Order::Equal {
            lemma_prerelease_order_trans(a.drop_first(), b.drop_first(), c.drop_first(), o);
        }
    }
}

proof fn lemma_version_order_flip(a: SpecSemVersion, b: SpecSemVersion)
    ensures
        version_order(b, a) == version_order(a, b).flip(),
{
    lemma_core_order_flip(a.core, b.core);
    match (a.prerelease, b.prerelease) {
        (Some(x), Some(y)) => lemma_prerelease_order_flip(x, y),
        _ => {},
    }
}

proof fn lemma_version_order_refl(a: SpecSemVersion)
    requires
        a.core.len() == 3,
    ensures
        version_order(a, a) == Order::Equal,
{
    lemma_core_order_equal(a.core, a.core);
    match a.prerelease {
        Some(x) => lemma_prerelease_order_refl(x),
        None => {},
    }
}

proof fn lemma_version_order_trans(a: SpecSemVersion, b: SpecSemVersion, c: SpecSemVersion)
    requires
        a.core.len() == 3,
        b.core.len() == 3,
        c.core.len() == 3,
        version_order(a, b) == Order::Greater,
        version_order(b, c) == Order::Greater,
    ensures
        version_order(a, c) == Order::Greater,
{
    lemma_core_order_equal(a.core, b.core);
    lemma_core_order_equal(b.core, c.core);
    lemma_core_order_equal(a.core, c.core);
    let x = core_order(a.core, b.core);
    let y = core_order(b.core, c.core);
    if x == Order::Greater && y == Order::Greater {
        lemma_core_order_trans(a.core, b.core, c.core, Order::Greater);
    } else if x == Order::Equal && y == Order::Equal {
        match (a.prerelease, b.prerelease, c.prerelease) {
            (Some(p), Some(q), Some(r)) => lemma_prerelease_order_trans(p, q, r, Order::Greater),
            _ => {},
        }
    }
}

/// No version is newer than itself.
pub proof fn is_newer_version_irreflexive(a: Seq<u8>)
    ensures
        !spec_is_newer(a, a),
{
    if let Some(v) = spec_parse_version(a) {
        lemma_version_order_refl(v);
    }
}

/// Of two versions at most one is newer than the other.
pub proof fn is_newer_version_asymmetric(a: Seq<u8>, b: Seq<u8>)
    ensures
        !(spec_is_newer(a, b) && spec_is_newer(b, a)),
{
    if let (Some(va), Some(vb)) = (spec_parse_version(a), spec_parse_version(b)) {
        lemma_version_order_flip(va, vb);
    }
}

/// "Newer than" is transitive.
pub proof fn is_newer_version_transitive(a: Seq<u8>, b: Seq<u8>, c: Seq<u8>)
    requires
        spec_is_newer(a, b),
        spec_is_newer(b, c),
    ensures
        spec_is_newer(a, c),
{
    let va = spec_parse_version(a).unwrap();
    let vb = spec_parse_version(b).unwrap();
    let vc = spec_parse_version(c).unwrap();
    lemma_version_order_trans(va, vb, vc);
}

/// Two valid versions with the same core and pre-release are never newer
/// than each other (build metadata does not count).
pub proof fn is_newer_version_ignores_build(a: Seq<u8>, b: Seq<u8>)
    requires
        spec_parse_version(a) is Some,
        spec_parse_version(b) is Some,
        spec_parse_version(a).unwrap().core == spec_parse_version(b).unwrap().core,
        spec_parse_version(a).unwrap().prerelease == spec_parse_version(b).unwrap().prerelease,
    ensures
        !spec_is_newer(a, b),
{
    lemma_version_order_refl(spec_parse_version(a).unwrap());
}

/// Valid versions are totally ordered: either one is newer, or they share
/// core and pre-release.
pub proof fn is_newer_version_total(a: Seq<u8>, b: Seq<u8>)
    requires
        spec_parse_version(a) is Some,
        spec_parse_version(b) is Some,
    ensures
        spec_is_newer(a, b) || spec_is_newer(b, a) || (spec_parse_version(a).unwrap().core
            == spec_parse_version(b).unwrap().core && spec_parse_version(a).unwrap().prerelease
            == spec_parse_version(b).unwrap().prerelease),
{
    let va = spec_parse_version(a).unwrap();
    let vb = spec_parse_version(b).unwrap();
    lemma_version_order_flip(va, vb);
    lemma_core_order_equal(va.core, vb.core);
    if version_order(va, vb) == Order::Equal {
        match (va.prerelease, vb.prerelease) {
            (Some(x), Some(y)) => lemma_prerelease_order_equal(x, y),
            _ => {},
        }
    }
}

proof fn lemma_prerelease_order_equal(a: Seq<Seq<u8>>, b: Seq<Seq<u8>>)
    ensures
        (prerelease_order(a, b) == Order::Equal) == (a == b),
    decreases a.len(),
{
    if a.len() > 0 && b.len() > 0 {
        lemma_identifier_order_equal(a[0], b[0]);
        lemma_prerelease_order_equal(a.drop_first(), b.drop_first());
        if a[0] == b[0] && a.drop_first() == b.drop_first() {
            assert(a =~= seq![a[0]] + a.drop_first());
            assert(b =~= seq![b[0]] + b.drop_first());
        }
        if a == b {
            assert(a.drop_first() == b.drop_first());
        }
    } else if a.len() == 0 && b.len() == 0 {
        assert(a =~= b);
    }
}

} // verus!

verus! {

// ---------------------------------------------------------------------------
// Downloaded executables
// ---------------------------------------------------------------------------

/// Minimum plausible size for a release binary (real ones are ~600-800 KB).
pub const MIN_UPDATE_SIZE: usize = 102400;

/// The CPU architectures releases are built for.
#[derive(Debug, Clone, Copy, PartialEq, Eq)]
pub enum TargetArch {
    Amd64,
    Arm64,
}

/// Release asset suffix of an architecture.
pub fn target_arch(arch: TargetArch) -> (name: &'static str)
    ensures
        name@ == spec_target_arch(arch),
{
    match arch {
        TargetArch::Amd64 => "amd64",
        TargetArch::Arm64 => "arm64",
    }
}

pub open spec fn spec_target_arch(arch: TargetArch) -> Seq<char> {
    match arch {
        TargetArch::Amd64 => "amd64"@,
        TargetArch::Arm64 => "arm64"@,
    }
}

pub open spec fn spec_target_machine(arch: TargetArch) -> u16 {
    match arch {
        TargetArch::Amd64 => 0x8664u16,
        TargetArch::Arm64 => 0xAA64u16,
    }
}

/// PE `Machine` value of an architecture.
pub fn target_machine(arch: TargetArch) -> (machine: u16)
    ensures
        machine == spec_target_machine(arch),
{
    match arch {
        TargetArch::Amd64 => 0x8664,
        TargetArch::Arm64 => 0xAA64,
    }
}

/// The little-endian `e_lfanew` field at 0x3C: offset of the PE signature.
pub open spec fn spec_e_lfanew(b: Seq<u8>) -> nat {
    b[0x3c] as nat + 256 * (b[0x3d] as nat) + 65536 * (b[0x3e] as nat) + 16777216 * (
    b[0x3f] as nat)
}

pub open spec fn spec_too_small_message(len: nat) -> Seq<char> {
    "file too small ("@ + crate::text::decimal(len) + " bytes) to be htop-win"@
}

pub open spec fn spec_missing_mz_message() -> Seq<char> {
    "missing MZ header (not a Windows executable)"@
}

pub open spec fn spec_missing_pe_message() -> Seq<char> {
    "missing PE signature"@
}

/// Why `body` is not plausibly a Windows PE executable, if it is not.
pub open spec fn spec_pe_problem(b: Seq<u8>) -> Option<Seq<char>> {
    if b.len() < MIN_UPDATE_SIZE {
        Some(spec_too_small_message(b.len()))
    } else if b[0] != 0x4Du8 || b[1] != 0x5Au8 {
        Some(spec_missing_mz_message())
    } else {
        let e = spec_e_lfanew(b) as int;
        if e + 6 <= b.len() && b[e as int] == 0x50u8 && b[e + 1] == 0x45u8 && b[e + 2] == 0u8
            && b[e + 3] == 0u8 {
            None
        } else {
            Some(spec_missing_pe_message())
        }
    }
}

fn e_lfanew(body: &[u8]) -> (e: u64)
    requires
        body.len() >= 0x40,
    ensures
        e as nat == spec_e_lfanew(body@),
{
    body[0x3c] as u64 + 256 * (body[0x3d] as u64) + 65536 * (body[0x3e] as u64) + 16777216 * (
    body[0x3f] as u64)
}

/// Reject anything that is not plausibly a Windows PE executable, so an
/// error page or a truncated download is never installed.
pub fn validate_pe_executable(body: &[u8]) -> (r: Result<(), String>)
    ensures
        match r {
            Ok(()) => spec_pe_problem(body@) is None,
            Err(message) => spec_pe_problem(body@) == Some(message@),
        },
{
    if body.len() < MIN_UPDATE_SIZE {
        let mut message = crate::text::string_of("file too small (");
        crate::text::push_decimal(&mut message, body.len() as u128);
        message.append(" bytes) to be htop-win");
        return Err(message);
    }
    if body[0] != 0x4D || body[1] != 0x5A {
        return Err(crate::text::string_of("missing MZ header (not a Windows executable)"));
    }
    let e = e_lfanew(body);
    if e + 6 <= body.len() as u64 {
        let i = e as usize;
        if body[i] == 0x50 && body[i + 1] == 0x45 && body[i + 2] == 0 && body[i + 3] == 0 {
            return Ok(());
        }
    }
    Err(crate::text::string_of("missing PE signature"))
}

pub open spec fn spec_pe_machine(b: Seq<u8>) -> u16 {
    let e = spec_e_lfanew(b) as int;
    (b[e + 4] as nat + 256 * (b[e + 5] as nat)) as u16
}

/// The PE `Machine` field of a plausible executable.
pub fn pe_machine(body: &[u8]) -> (r: Result<u16, String>)
    ensures
        match r {
            Ok(machine) => spec_pe_problem(body@) is None && machine == spec_pe_machine(body@),
            Err(message) => spec_pe_problem(body@) == Some(message@),
        },
{
    validate_pe_executable(body)?;
    let e = e_lfanew(body) as usize;
    let machine = body[e + 4] as u16 + 256 * (body[e + 5] as u16);
    Ok(machine)
}

pub open spec fn spec_wrong_arch_message(machine: u16, arch: TargetArch) -> Seq<char> {
    "wrong architecture: PE machine "@ + crate::text::hex4(machine) + ", expected "@
        + spec_target_arch(arch)
}

/// The executable is a PE image for `arch`.
pub fn validate_target_pe_executable(body: &[u8], arch: TargetArch) -> (r: Result<(), String>)
    ensures
        match r {
            Ok(()) => spec_pe_problem(body@) is None && spec_pe_machine(body@)
                == spec_target_machine(arch),
            Err(message) => match spec_pe_problem(body@) {
                Some(problem) => message@ == problem,
                None => spec_pe_machine(body@) != spec_target_machine(arch) && message@
                    == spec_wrong_arch_message(spec_pe_machine(body@), arch),
            },
        },
{
    let machine = pe_machine(body)?;
    if machine == target_machine(arch) {
        Ok(())
    } else {
        let mut message = crate::text::string_of("wrong architecture: PE machine ");
        crate::text::push_hex4(&mut message, machine);
        message.append(", expected ");
        message.append(target_arch(arch));
        Err(message)
    }
}

} // verus!
