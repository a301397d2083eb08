//! Release-tag normalisation and version comparison for the update check.
use crate::text::{
    all_digits, chars_of, digits_value, is_digit, parse_u64_range, parse_u64_spec, string_of_range,
    trim, trim_bounds, unsigned_digits,
};
use vstd::prelude::*;

verus! {

/// `s` without all of its leading occurrences of `c`, as `str::trim_start_matches(c)` gives it.
pub open spec fn drop_leading(s: Seq<char>, c: char) -> Seq<char>
    decreases s.len(),
{
    if s.len() > 0 && s[0] == c {
        drop_leading(s.drop_first(), c)
    } else {
        s
    }
}

/// A release tag reduced to its version: trimmed, then without leading `v`s, then without leading `V`s.
pub open spec fn normalize_version_spec(tag: Seq<char>) -> Seq<char> {
    drop_leading(drop_leading(trim(tag), 'v'), 'V')
}

fn drop_leading_from(v: &Vec<char>, lo: usize, hi: usize, c: char) -> (r: usize)
    requires
        lo <= hi <= v@.len(),
    ensures
        lo <= r <= hi,
        v@.subrange(r as int, hi as int) == drop_leading(v@.subrange(lo as int, hi as int), c),
{
    let mut i = lo;
    while i < hi && v[i] == c
        invariant
            lo <= i <= hi <= v@.len(),
            drop_leading(v@.subrange(lo as int, hi as int), c) == drop_leading(
                v@.subrange(i as int, hi as int),
                c,
            ),
        decreases hi - i,
    {
        assert(v@.subrange(i as int, hi as int).drop_first() =~= v@.subrange(i + 1, hi as int));
        i = i + 1;
    }
    if i < hi {
        assert(v@.subrange(i as int, hi as int)[0] == v@[i as int]);
    }
    i
}

/// Reduces a release tag such as `v1.2.3` to the version `1.2.3`.
pub fn normalize_version(tag: &str) -> (r: String)
    ensures
        r@ == normalize_version_spec(tag@),
{
    let v = chars_of(tag);
    assert(v@.subrange(0, v@.len() as int) =~= v@);
    let (a, b) = trim_bounds(&v, 0, v.len());
    let a1 = drop_leading_from(&v, a, b, 'v');
    let a2 = drop_leading_from(&v, a1, b, 'V');
    string_of_range(&v, a2, b)
}

/// `c` is an ASCII decimal digit (`char::is_ascii_digit`).
pub fn is_ascii_digit(c: char) -> (b: bool)
    ensures
        b == is_digit(c),
{
    '0' <= c && c <= '9'
}

/// The maximal runs of ASCII digits in `s`, in order: the non-empty pieces of
/// `s.split(|c| !c.is_ascii_digit())`.
pub open spec fn digit_runs(s: Seq<char>) -> Seq<Seq<char>>
    decreases s.len(),
{
    if s.len() == 0 {
        Seq::<Seq<char>>::empty()
    } else {
        let p = digit_runs(s.drop_last());
        let c = s.last();
        if !is_digit(c) {
            p
        } else if s.len() >= 2 && is_digit(s[s.len() - 2]) {
            p.update(p.len() - 1, p.last().push(c))
        } else {
            p.push(seq![c])
        }
    }
}

proof fn lemma_runs_nonempty(s: Seq<char>)
    requires
        s.len() > 0,
        is_digit(s.last()),
    ensures
        digit_runs(s).len() >= 1,
        digit_runs(s).last().len() >= 1,
        all_digits(digit_runs(s).last()),
    decreases s.len(),
{
    if s.len() >= 2 && is_digit(s[s.len() - 2]) {
        assert(s.drop_last().last() == s[s.len() - 2]);
        lemma_runs_nonempty(s.drop_last());
        let p = digit_runs(s.drop_last());
        assert(all_digits(p.last().push(s.last())));
    } else {
        assert(all_digits(seq![s.last()]));
    }
}

/// The value of a run of digits as `parse::<u64>().unwrap_or(0)` gives it: 0 when it overflows.
pub open spec fn run_value(r: Seq<char>) -> u64 {
    if digits_value(r) <= u64::MAX {
        digits_value(r) as u64
    } else {
        0
    }
}

/// The numeric parts of a version string.
pub open spec fn version_parts_spec(s: Seq<char>) -> Seq<u64> {
    runs_values(digit_runs(s))
}

/// The values of the digit runs `p`.
pub open spec fn runs_values(p: Seq<Seq<char>>) -> Seq<u64> {
    p.map_values(|r: Seq<char>| run_value(r))
}

/// Splits a version into its numeric components, such as `[1, 2, 3]` for `1.2.3`.
/// Non-digit characters separate components; a component too large for `u64` counts as 0.
pub fn version_parts(version: &str) -> (r: Vec<u64>)
    ensures
        r@ == version_parts_spec(version@),
{
    let v = chars_of(version);
    let n = v.len();
    let mut runs: Vec<(usize, usize)> = Vec::new();
    let mut start: usize = 0;
    let mut in_run = false;
    let mut j: usize = 0;
    let mut out: Vec<u64> = Vec::new();
    while j < n
        invariant
            n == v@.len(),
            j <= n,
            start <= j,
            in_run <==> (j > 0 && is_digit(v@[j - 1])),
            in_run ==> start < j && all_digits(v@.subrange(start as int, j as int)),
            in_run ==> (start == 0 || !is_digit(v@[start - 1])),
            in_run ==> out@.push(run_value(v@.subrange(start as int, j as int)))
                == version_parts_spec(v@.subrange(0, j as int)),
            !in_run ==> out@ == version_parts_spec(v@.subrange(0, j as int)),
        decreases n - j,
    {
        let ghost prev = v@.subrange(0, j as int);
        let ghost next = v@.subrange(0, j + 1);
        assert(next.drop_last() =~= prev);
        assert(next.last() == v@[j as int]);
        let c = v[j];
        if is_ascii_digit(c) {
            if in_run {
                assert(next[next.len() - 2] == v@[j - 1]);
                assert(prev.subrange(start as int, j as int) =~= v@.subrange(start as int, j as int));
                if start > 0 {
                    assert(prev[start - 1] == v@[start - 1]);
                }
                proof {
                    lemma_runs_nonempty(prev);
                    lemma_runs_last(prev, start as int);
                }
                let ghost p = digit_runs(prev);
                let ghost run = v@.subrange(start as int, j as int);
                assert(p.last() == run);
                assert(digit_runs(next) == p.update(p.len() - 1, run.push(c)));
                assert(runs_values(p) == out@.push(run_value(run)));
                assert(v@.subrange(start as int, j + 1) =~= run.push(c));
                let ghost q = p.update(p.len() - 1, run.push(c));
                assert forall|k: int| 0 <= k < out@.len() implies runs_values(q)[k] == out@[k] by {
                    assert(q[k] == p[k]);
                    assert(runs_values(p)[k] == out@[k]);
                }
                assert(runs_values(q) =~= out@.push(run_value(run.push(c))));
                assert(version_parts_spec(next) =~= out@.push(run_value(v@.subrange(start as int, j + 1))));
            } else {
                start = j;
                if j > 0 {
                    assert(next[next.len() - 2] == v@[j - 1]);
                }
                assert(v@.subrange(start as int, j + 1) =~= seq![c]);
                assert(version_parts_spec(next) =~= out@.push(run_value(v@.subrange(start as int, j + 1))));
            }
            in_run = true;
        } else {
            if in_run {
                let p = parse_u64_range(&v, start, j);
                let val = match p { Some(x) => x, None => 0 };
                proof {
                    lemma_digits_parse(v@.subrange(start as int, j as int));
                }
                out.push(val);
                in_run = false;
            }
            assert(version_parts_spec(next) =~= version_parts_spec(prev));
        }
        j = j + 1;
    }
    if in_run {
        let p = parse_u64_range(&v, start, n);
        let val = match p { Some(x) => x, None => 0 };
        proof {
            lemma_digits_parse(v@.subrange(start as int, n as int));
        }
        out.push(val);
    }
    assert(v@.subrange(0, n as int) =~= v@);
    out
}

proof fn lemma_digits_parse(r: Seq<char>)
    requires
        r.len() > 0,
        all_digits(r),
    ensures
        parse_u64_spec(r) == (if digits_value(r) <= u64::MAX { Some(run_value(r)) } else { None::<u64> }),
{
    assert(unsigned_digits(r) == r) by {
        if r.len() > 0 && r[0] == '+' {
            assert(is_digit(r[0]));
        }
    }
}

proof fn lemma_runs_last(s: Seq<char>, start: int)
    requires
        0 <= start < s.len(),
        all_digits(s.subrange(start, s.len() as int)),
        start == 0 || !is_digit(s[start - 1]),
    ensures
        digit_runs(s).len() >= 1,
        digit_runs(s).last() == s.subrange(start, s.len() as int),
        digit_runs(s).drop_last() == digit_runs(s.subrange(0, start)),
    decreases s.len(),
{
    let c = s.last();
    assert(is_digit(s.subrange(start, s.len() as int)[s.len() - 1 - start]));
    if s.len() - 1 == start {
        let t = s.drop_last();
        assert(t =~= s.subrange(0, start));
        if s.len() >= 2 {
            assert(s[s.len() - 2] == s[start - 1]);
        }
        assert(s.subrange(start, s.len() as int) =~= seq![c]);
    } else {
        let t = s.drop_last();
        assert(t.subrange(start, t.len() as int) =~= s.subrange(start, s.len() - 1));
        assert forall|i: int| 0 <= i < t.subrange(start, t.len() as int).len() implies is_digit(
            #[trigger] t.subrange(start, t.len() as int)[i],
        ) by {
            assert(s.subrange(start, s.len() as int)[i] == t.subrange(start, t.len() as int)[i]);
        }
        lemma_runs_last(t, start);
        assert(s[s.len() - 2] == s.subrange(start, s.len() as int)[s.len() - 2 - start]);
        assert(t.subrange(0, start) =~= s.subrange(0, start));
        assert(s.subrange(start, s.len() as int) =~= t.subrange(start, t.len() as int).push(c));
    }
}

/// Part `i` of a version, 0 past its end.
pub open spec fn part_at(p: Seq<u64>, i: int) -> u64 {
    if 0 <= i < p.len() {
        p[i]
    } else {
        0
    }
}

/// The larger of the two lengths.
pub open spec fn max_len(a: Seq<u64>, b: Seq<u64>) -> int {
    if a.len() >= b.len() {
        a.len() as int
    } else {
        b.len() as int
    }
}

/// The sign of the comparison of `a` and `b` from part `i` on: -1, 0 or 1.
pub open spec fn parts_order_from(a: Seq<u64>, b: Seq<u64>, i: int) -> int
    decreases max_len(a, b) - i,
{
    if i < 0 || i >= max_len(a, b) {
        0
    } else if part_at(a, i) < part_at(b, i) {
        -1
    } else if part_at(a, i) > part_at(b, i) {
        1
    } else {
        parts_order_from(a, b, i + 1)
    }
}

/// The comparison of `a` and `b` from part `i` on.
pub open spec fn order_at(a: Seq<u64>, b: Seq<u64>, i: usize) -> int {
    parts_order_from(a, b, i as int)
}

/// The order of two versions: their parts compared left to right, a missing part counting as 0.
pub open spec fn version_order(left: Seq<char>, right: Seq<char>) -> int {
    parts_order_from(version_parts_spec(left), version_parts_spec(right), 0)
}


proof fn lemma_order_step(a: Seq<u64>, b: Seq<u64>, i: int)
    requires
        i >= 0,
    ensures
        parts_order_from(a, b, i) == (if part_at(a, i) < part_at(b, i) {
            -1
        } else if part_at(a, i) > part_at(b, i) {
            1
        } else {
            parts_order_from(a, b, i + 1)
        }),
{
    if i >= max_len(a, b) {
        assert(part_at(a, i) == 0 && part_at(b, i) == 0);
    }
}

proof fn lemma_order_tail(a: Seq<u64>, b: Seq<u64>, i: int)
    requires
        i >= 0,
        i >= max_len(a, b),
    ensures
        parts_order_from(a, b, i) == 0,
{
}

proof fn lemma_order_antisym(a: Seq<u64>, b: Seq<u64>, i: int)
    requires
        i >= 0,
    ensures
        parts_order_from(a, b, i) == -parts_order_from(b, a, i),
    decreases max_len(a, b) - i,
{
    lemma_order_step(a, b, i);
    lemma_order_step(b, a, i);
    if i < max_len(a, b) {
        lemma_order_antisym(a, b, i + 1);
    }
}

proof fn lemma_order_refl(a: Seq<u64>, i: int)
    requires
        i >= 0,
    ensures
        parts_order_from(a, a, i) == 0,
    decreases max_len(a, a) - i,
{
    if i < max_len(a, a) {
        lemma_order_refl(a, i + 1);
    }
}

proof fn lemma_order_trans(a: Seq<u64>, b: Seq<u64>, c: Seq<u64>, i: int, m: int)
    requires
        i >= 0,
        m >= max_len(a, b),
        m >= max_len(b, c),
        m >= max_len(a, c),
        parts_order_from(a, b, i) <= 0,
        parts_order_from(b, c, i) <= 0,
    ensures
        parts_order_from(a, c, i) <= 0,
    decreases m - i,
{
    lemma_order_step(a, b, i);
    lemma_order_step(b, c, i);
    lemma_order_step(a, c, i);
    if i >= m {
        lemma_order_tail(a, c, i);
    } else if part_at(a, i) == part_at(b, i) && part_at(b, i) == part_at(c, i) {
        lemma_order_trans(a, b, c, i + 1, m);
    }
}

/// Every version is equal to itself.
pub proof fn version_order_reflexive(v: Seq<char>)
    ensures
        version_order(v, v) == 0,
{
    lemma_order_refl(version_parts_spec(v), 0);
}

/// Swapping the two versions reverses their order.
pub proof fn version_order_antisymmetric(a: Seq<char>, b: Seq<char>)
    ensures
        version_order(a, b) == -version_order(b, a),
{
    lemma_order_antisym(version_parts_spec(a), version_parts_spec(b), 0);
}

/// The order of versions is transitive: `a <= b` and `b <= c` give `a <= c`.
pub proof fn version_order_transitive(a: Seq<char>, b: Seq<char>, c: Seq<char>)
    requires
        version_order(a, b) <= 0,
        version_order(b, c) <= 0,
    ensures
        version_order(a, c) <= 0,
{
    let pa = version_parts_spec(a);
    let pb = version_parts_spec(b);
    let pc = version_parts_spec(c);
    let m = max_len(pa, pb) + max_len(pb, pc) + max_len(pa, pc);
    lemma_order_trans(pa, pb, pc, 0, m);
}

/// The outcome of an update check against the latest published release.
#[derive(Debug)]
pub struct UpdateCheckResult {
    pub current_version: String,
    pub latest_version: Option<String>,
    pub latest_tag: Option<String>,
    pub release_name: Option<String>,
    pub release_url: Option<String>,
    pub published_at: Option<String>,
    pub has_update: bool,
}

/// The address of the latest published release.
pub fn latest_release_url() -> (r: String)
    ensures
        r@ == "https://api.github.com/repos/Sparrived/galncelet/releases/latest"@,
{
    "https://api.github.com/repos/Sparrived/galncelet/releases/latest".to_owned()
}

/// The user agent of the update check: `Galncelet/` and the running version.
pub fn user_agent(current_version: &str) -> (r: String)
    ensures
        r@ == "Galncelet/"@ + current_version@,
{
    crate::startup::prefixed("Galncelet/", current_version)
}

} // verus!
