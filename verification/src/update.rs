//! Deciding, from a release API response, whether a newer release exists.

use vstd::prelude::*;

use crate::text::{
    all_digits, chars_of, compare_digits, copy_range, digits_value, find_chars, find_from,
    is_digit, lemma_find_first, lemma_find_from, lemma_trim_start_padded, occurs_at,
    range_equals, second_piece, second_piece_bounds, trim_bounds, trim_start,
};

verus! {

/// The key that precedes the release tag in the response.
pub open spec fn tag_key() -> Seq<char> {
    "\"tag_name\":"@
}

/// `s` without its leading `v` characters (`trim_start_matches('v')`).
pub open spec fn strip_v(s: Seq<char>) -> Seq<char>
    decreases s.len(),
{
    if s.len() > 0 && s[0] == 'v' {
        strip_v(s.drop_first())
    } else {
        s
    }
}

/// The value of a JSON string that `s` starts with, after optional
/// whitespace: the text between its opening `"` and the next `"`.
pub open spec fn quoted_value(s: Seq<char>) -> Option<Seq<char>> {
    let r = trim_start(s);
    if r.len() > 0 && r[0] == '"' {
        match find_from(r, seq!['"'], 1) {
            Some(j) => Some(r.subrange(1, j)),
            None => None,
        }
    } else {
        None
    }
}

/// The release tag named in `body`: the string value that follows the first
/// `"tag_name":` (up to the next `"tag_name":`); none when that value is not
/// a string.
pub open spec fn release_tag(body: Seq<char>) -> Option<Seq<char>> {
    match second_piece(body, tag_key()) {
        Some(rest) => quoted_value(rest),
        None => None,
    }
}

/// Whether `c` may stand in the numeric core of a version.
pub open spec fn is_core_char(c: char) -> bool {
    is_digit(c) || c == '.'
}

/// The length of the numeric core of a version text: its longest prefix of
/// digits and dots (`1.2.0` in `1.2.0-rc1`).
pub open spec fn core_len(s: Seq<char>) -> nat
    decreases s.len(),
{
    if s.len() > 0 && is_core_char(s[0]) {
        1 + core_len(s.drop_first())
    } else {
        0
    }
}

/// The pieces of `s` between its dots (`s.split('.')`).
pub open spec fn dot_groups(s: Seq<char>) -> Seq<Seq<char>>
    decreases s.len(),
{
    if s.len() == 0 {
        seq![Seq::<char>::empty()]
    } else {
        let g = dot_groups(s.drop_last());
        if s.last() == '.' {
            g.push(Seq::<char>::empty())
        } else {
            g.update(g.len() - 1, g.last().push(s.last()))
        }
    }
}

/// The numbers of a version's core (`1.2.0` gives 1, 2, 0), when the core
/// is one or more numbers separated by single dots; any size of number.
pub open spec fn core_values(s: Seq<char>) -> Option<Seq<nat>> {
    let g = dot_groups(s.subrange(0, core_len(s) as int));
    if forall|i: int| 0 <= i < g.len() ==> (#[trigger] g[i]).len() > 0 {
        Some(g.map_values(|x: Seq<char>| digits_value(x)))
    } else {
        None
    }
}

/// Whether a version text is a pre-release: something other than build
/// metadata (`+…`) follows its core (`1.0.0-rc1`).
pub open spec fn is_pre_release(s: Seq<char>) -> bool {
    core_len(s) < s.len() && s[core_len(s) as int] != '+'
}

/// Number `i` of a version, 0 past its end (so `1.0` and `1` are equal).
pub open spec fn component(v: Seq<nat>, i: int) -> nat {
    if 0 <= i < v.len() {
        v[i]
    } else {
        0
    }
}

/// Whether version `a` is above version `b` when compared number by number
/// from `i` on.
pub open spec fn version_gt_from(a: Seq<nat>, b: Seq<nat>, i: int) -> bool
    decreases a.len() + b.len() - i,
{
    if i < 0 || (i >= a.len() && i >= b.len()) {
        false
    } else if component(a, i) > component(b, i) {
        true
    } else if component(a, i) < component(b, i) {
        false
    } else {
        version_gt_from(a, b, i + 1)
    }
}

/// Whether the numbers of version `a` are above those of `b`: at the first
/// place where they differ, `a`'s is larger.
pub open spec fn version_newer(a: Seq<nat>, b: Seq<nat>) -> bool {
    version_gt_from(a, b, 0)
}

/// Whether the release version `remote` is reported while `current` runs:
/// it is not empty and differs from `current`, and, when both have a
/// numeric core, it is not older: its numbers are higher, or they are equal
/// and `current` is a pre-release. Texts without a numeric core cannot be
/// ordered, so any other version is reported.
pub open spec fn reported(remote: Seq<char>, current: Seq<char>) -> bool {
    &&& remote.len() > 0
    &&& remote != current
    &&& match (core_values(remote), core_values(current)) {
        (Some(r), Some(c)) => version_newer(r, c) || (!version_newer(c, r) && is_pre_release(
            current,
        )),
        _ => true,
    }
}

/// The tag of a newer release: the release tag, when its version (the tag
/// without leading `v`s) is reported while `current` runs.
pub open spec fn newer_release(body: Seq<char>, current: Seq<char>) -> Option<Seq<char>> {
    match release_tag(body) {
        Some(tag) => if reported(strip_v(tag), current) {
            Some(tag)
        } else {
            None
        },
        None => None,
    }
}

/// The numbers written in the ranges `g` of `v`.
pub open spec fn group_values(v: Seq<char>, g: Seq<(usize, usize)>) -> Seq<nat> {
    g.map_values(|r: (usize, usize)| digits_value(v.subrange(r.0 as int, r.1 as int)))
}

/// Whether each range of `g` lies in `v` and holds only digits.
pub open spec fn digit_ranges(v: Seq<char>, g: Seq<(usize, usize)>) -> bool {
    forall|j: int|
        0 <= j < g.len() ==> #[trigger] g[j].0 <= g[j].1 <= v.len() && all_digits(
            v.subrange(g[j].0 as int, g[j].1 as int),
        )
}

/// The end of the numeric core of `v[lo..hi]`.
fn core_end(v: &Vec<char>, lo: usize, hi: usize) -> (e: usize)
    requires
        lo <= hi <= v@.len(),
    ensures
        lo <= e <= hi,
        e - lo == core_len(v@.subrange(lo as int, hi as int)),
        forall|t: int| lo <= t < e ==> is_core_char(#[trigger] v@[t]),
{
    let mut k = lo;
    while k < hi && (('0' <= v[k] && v[k] <= '9') || v[k] == '.')
        invariant
            lo <= k <= hi <= v@.len(),
            core_len(v@.subrange(lo as int, hi as int)) == (k - lo) + core_len(
                v@.subrange(k as int, hi as int),
            ),
            forall|t: int| lo <= t < k ==> is_core_char(#[trigger] v@[t]),
        decreases hi - k,
    {
        assert(v@.subrange(k as int, hi as int).drop_first() =~= v@.subrange(k + 1, hi as int));
        assert(v@.subrange(k as int, hi as int)[0] == v@[k as int]);
        k = k + 1;
    }
    assert(k < hi ==> v@.subrange(k as int, hi as int)[0] == v@[k as int]);
    k
}

/// The ranges of `v[lo..e]` between its dots, in order; `v[lo..e]` holds
/// only digits and dots.
fn dot_group_ranges(v: &Vec<char>, lo: usize, e: usize) -> (g: Vec<(usize, usize)>)
    requires
        lo <= e <= v@.len(),
        forall|t: int| lo <= t < e ==> is_core_char(#[trigger] v@[t]),
    ensures
        g@.len() == dot_groups(v@.subrange(lo as int, e as int)).len(),
        forall|j: int|
            0 <= j < g@.len() ==> #[trigger] dot_groups(v@.subrange(lo as int, e as int))[j]
                == v@.subrange(g@[j].0 as int, g@[j].1 as int),
        digit_ranges(v@, g@),
{
    let mut groups: Vec<(usize, usize)> = Vec::new();
    let mut gs: usize = lo;
    let mut k: usize = lo;
    assert(v@.subrange(lo as int, lo as int) =~= Seq::<char>::empty());
    assert(v@.subrange(gs as int, k as int) =~= Seq::<char>::empty());
    while k < e
        invariant
            lo <= gs <= k <= e <= v@.len(),
            forall|t: int| lo <= t < e ==> is_core_char(#[trigger] v@[t]),
            dot_groups(v@.subrange(lo as int, k as int)).len() == groups@.len() + 1,
            forall|j: int|
                0 <= j < groups@.len() ==> #[trigger] dot_groups(
                    v@.subrange(lo as int, k as int),
                )[j] == v@.subrange(groups@[j].0 as int, groups@[j].1 as int),
            dot_groups(v@.subrange(lo as int, k as int))[groups@.len() as int] == v@.subrange(
                gs as int,
                k as int,
            ),
            digit_ranges(v@, groups@),
            all_digits(v@.subrange(gs as int, k as int)),
        decreases e - k,
    {
        let c = v[k];
        let ghost before = dot_groups(v@.subrange(lo as int, k as int));
        assert(v@.subrange(lo as int, k + 1).drop_last() =~= v@.subrange(lo as int, k as int));
        assert(v@.subrange(lo as int, k + 1).last() == c);
        assert(is_core_char(v@[k as int]));
        if c == '.' {
            groups.push((gs, k));
            gs = k + 1;
            assert(v@.subrange(gs as int, k + 1) =~= Seq::<char>::empty());
        } else {
            assert(v@.subrange(gs as int, k + 1) =~= v@.subrange(gs as int, k as int).push(c));
            assert(all_digits(v@.subrange(gs as int, k + 1))) by {
                let t = v@.subrange(gs as int, k + 1);
                assert forall|i: int| 0 <= i < t.len() implies crate::text::is_digit(
                    #[trigger] t[i],
                ) by {
                    if i < t.len() - 1 {
                        assert(t[i] == v@.subrange(gs as int, k as int)[i]);
                    }
                }
            }
        }
        k = k + 1;
    }
    groups.push((gs, e));
    groups
}

/// The numeric core of the version text `v[lo..hi]`, as the ranges of its
/// numbers, when it has one.
fn version_core(v: &Vec<char>, lo: usize, hi: usize) -> (r: Option<Vec<(usize, usize)>>)
    requires
        lo <= hi <= v@.len(),
    ensures
        match core_values(v@.subrange(lo as int, hi as int)) {
            Some(vals) => r matches Some(g) && group_values(v@, g@) == vals && digit_ranges(
                v@,
                g@,
            ),
            None => r is None,
        },
{
    let ghost s = v@.subrange(lo as int, hi as int);
    let e = core_end(v, lo, hi);
    let g = dot_group_ranges(v, lo, e);
    assert(s.subrange(0, core_len(s) as int) =~= v@.subrange(lo as int, e as int));
    let ghost d = dot_groups(v@.subrange(lo as int, e as int));
    let n = g.len();
    let mut j: usize = 0;
    while j < n
        invariant
            j <= n == g@.len() == d.len(),
            s == v@.subrange(lo as int, hi as int),
            d == dot_groups(s.subrange(0, core_len(s) as int)),
            forall|i: int| 0 <= i < g@.len() ==> #[trigger] d[i] == v@.subrange(g@[i].0 as int, g@[i].1 as int),
            digit_ranges(v@, g@),
            forall|i: int| 0 <= i < j ==> (#[trigger] d[i]).len() > 0,
        decreases n - j,
    {
        let (x, y) = g[j];
        if x == y {
            assert(d[j as int].len() == 0);
            return None;
        }
        assert(d[j as int] == v@.subrange(g@[j as int].0 as int, g@[j as int].1 as int));
        j = j + 1;
    }
    assert(group_values(v@, g@) =~= d.map_values(|x: Seq<char>| digits_value(x)));
    Some(g)
}

/// Whether the version text `v[lo..hi]` is a pre-release.
fn pre_release(v: &Vec<char>, lo: usize, hi: usize) -> (r: bool)
    requires
        lo <= hi <= v@.len(),
    ensures
        r == is_pre_release(v@.subrange(lo as int, hi as int)),
{
    let e = core_end(v, lo, hi);
    e < hi && v[e] != '+'
}

/// Whether the numbers in the ranges `ga` of `a` are above those in the
/// ranges `gb` of `b`.
fn numbers_newer(a: &Vec<char>, ga: &Vec<(usize, usize)>, b: &Vec<char>, gb: &Vec<(usize, usize)>) -> (r: bool)
    requires
        digit_ranges(a@, ga@),
        digit_ranges(b@, gb@),
    ensures
        r == version_newer(group_values(a@, ga@), group_values(b@, gb@)),
{
    let ghost va = group_values(a@, ga@);
    let ghost vb = group_values(b@, gb@);
    let n = if ga.len() > gb.len() {
        ga.len()
    } else {
        gb.len()
    };
    let mut i: usize = 0;
    assert(all_digits(a@.subrange(0, 0)));
    assert(all_digits(b@.subrange(0, 0)));
    while i < n
        invariant
            i <= n,
            n == ga@.len() || n == gb@.len(),
            ga@.len() <= n,
            gb@.len() <= n,
            va == group_values(a@, ga@),
            vb == group_values(b@, gb@),
            digit_ranges(a@, ga@),
            digit_ranges(b@, gb@),
            version_newer(va, vb) == version_gt_from(va, vb, i as int),
        decreases n - i,
    {
        let (xa, ya) = if i < ga.len() {
            ga[i]
        } else {
            (0, 0)
        };
        let (xb, yb) = if i < gb.len() {
            gb[i]
        } else {
            (0, 0)
        };
        proof {
            if i < ga@.len() {
                assert(ga@[i as int].0 <= ga@[i as int].1 <= a@.len());
            } else {
                assert(a@.subrange(0, 0) =~= Seq::<char>::empty());
            }
            if i < gb@.len() {
                assert(gb@[i as int].0 <= gb@[i as int].1 <= b@.len());
            } else {
                assert(b@.subrange(0, 0) =~= Seq::<char>::empty());
            }
        }
        let c = compare_digits(a, xa, ya, b, xb, yb);
        assert(digits_value(a@.subrange(xa as int, ya as int)) == component(va, i as int));
        assert(digits_value(b@.subrange(xb as int, yb as int)) == component(vb, i as int));
        if c == 1 {
            return true;
        }
        if c == -1 {
            return false;
        }
        i = i + 1;
    }
    false
}

/// The tag of a release newer than the running version `current`, from the
/// body of the latest-release API response (e.g. `"tag_name":"v0.2.0"`).
pub fn update_tag(body: &str, current: &str) -> (r: Option<String>)
    ensures
        match newer_release(body@, current@) {
            Some(tag) => r matches Some(s) && s@ == tag,
            None => r is None,
        },
{
    let v = chars_of(body);
    let key = chars_of("\"tag_name\":");
    let (a, b) = match second_piece_bounds(&v, &key) {
        Some(bounds) => bounds,
        None => return None,
    };
    let (t, _) = trim_bounds(&v, a, b);
    let rest = copy_range(&v, t, b);
    assert(rest@ == trim_start(v@.subrange(a as int, b as int)));
    if rest.len() == 0 || rest[0] != '"' {
        return None;
    }
    let quote = vec!['"'];
    assert(quote@ =~= seq!['"']);
    let y = match find_chars(&rest, &quote, 1) {
        Some(j) => j,
        None => return None,
    };
    proof {
        lemma_find_from(rest@, quote@, 1);
    }
    let ghost tag = rest@.subrange(1, y as int);
    assert(release_tag(body@) == Some(tag));
    let mut s: usize = 1;
    while s < y && rest[s] == 'v'
        invariant
            1 <= s <= y <= rest@.len(),
            strip_v(tag) == strip_v(rest@.subrange(s as int, y as int)),
        decreases y - s,
    {
        assert(rest@.subrange(s as int, y as int).drop_first() =~= rest@.subrange(
            s + 1,
            y as int,
        ));
        s = s + 1;
    }
    let ghost remote = rest@.subrange(s as int, y as int);
    assert(strip_v(tag) == remote);
    let cur = chars_of(current);
    let cn = cur.len();
    assert(cur@.subrange(0, cn as int) =~= current@);
    let report = if s == y || range_equals(&rest, s, y, &cur) {
        false
    } else {
        match (version_core(&rest, s, y), version_core(&cur, 0, cn)) {
            (Some(rg), Some(cg)) => {
                if numbers_newer(&rest, &rg, &cur, &cg) {
                    true
                } else if numbers_newer(&cur, &cg, &rest, &rg) {
                    false
                } else {
                    pre_release(&cur, 0, cn)
                }
            },
            _ => true,
        }
    };
    assert(report == reported(remote, current@));
    if report {
        assert(v@.subrange(t + 1, t + y) =~= tag);
        Some(String::from_str(body.substring_char(t + 1, t + y)))
    } else {
        None
    }
}

/// A response naming its release once, as `"tag_name":"<tag>"`, with a tag
/// free of `"`, names that tag; so the tag is reported exactly when its
/// version is reported while `current` runs.
pub proof fn law_release_tag(pre: Seq<char>, tag: Seq<char>, rest: Seq<char>, current: Seq<char>)
    requires
        forall|i: int| 0 <= i < tag.len() ==> tag[i] != '"',
        forall|j: int|
            j != pre.len() ==> !occurs_at(
                pre + "\"tag_name\":"@ + seq!['"'] + tag + seq!['"'] + rest,
                "\"tag_name\":"@,
                j,
            ),
    ensures
        release_tag(pre + "\"tag_name\":"@ + seq!['"'] + tag + seq!['"'] + rest) == Some(tag),
        newer_release(pre + "\"tag_name\":"@ + seq!['"'] + tag + seq!['"'] + rest, current) == (
        if reported(strip_v(tag), current) {
            Some(tag)
        } else {
            None
        }),
{
    reveal_strlit("\"tag_name\":");
    let key = tag_key();
    let q = seq!['"'];
    let body = pre + key + q + tag + q + rest;
    let at = pre.len() as int;
    let from = at + key.len();
    assert(body.subrange(at, at + key.len()) =~= key);
    lemma_find_first(body, key, 0, at);
    lemma_find_from(body, key, from);
    if let Some(k) = find_from(body, key, from) {
        assert(occurs_at(body, key, k));
        assert(k != at);
        assert(!occurs_at(body, key, k));
    }
    let seg = q + tag + q + rest;
    assert(body.subrange(from, body.len() as int) =~= seg);
    assert(second_piece(body, key) == Some(seg));
    lemma_trim_start_padded(Seq::<char>::empty(), seg);
    assert(Seq::<char>::empty() + seg =~= seg);
    assert(trim_start(seg) == seg);
    let close = tag.len() + 1int;
    assert(seg.subrange(close, close + 1) =~= q);
    assert forall|j: int| 1 <= j < close implies !occurs_at(seg, q, j) by {
        assert(seg.subrange(j, j + 1)[0] == seg[j]);
        assert(seg[j] == tag[j - 1]);
    }
    lemma_find_first(seg, q, 1, close);
    assert(seg.subrange(1, close) =~= tag);
    assert(quoted_value(seg) == Some(tag));
}

/// Version order is strict: no version is newer than itself, and of two
/// versions at most one is newer than the other.
pub proof fn law_version_order(a: Seq<nat>, b: Seq<nat>, i: int)
    ensures
        !version_gt_from(a, a, i),
        version_gt_from(a, b, i) ==> !version_gt_from(b, a, i),
    decreases a.len() + b.len() - i,
{
    if !(i < 0 || (i >= a.len() && i >= b.len())) {
        law_version_order(a, b, i + 1);
    }
}

/// A release whose numbers are below the running version's is never
/// reported, nor is the running version itself.
pub proof fn law_older_not_reported(remote: Seq<char>, current: Seq<char>)
    ensures
        !reported(current, current),
        (core_values(remote) matches Some(r) && core_values(current) matches Some(c)
            && version_newer(c, r)) ==> !reported(remote, current),
{
    if let (Some(r), Some(c)) = (core_values(remote), core_values(current)) {
        law_version_order(c, r, 0);
    }
}

/// Versions compare at their first differing number, a missing number
/// counting as 0: the one with the larger number there is newer, and the
/// other is not.
pub proof fn law_version_first_difference(a: Seq<nat>, b: Seq<nat>, i: int)
    requires
        0 <= i,
        forall|j: int|
            0 <= j < i ==> (if j < a.len() {
                a[j]
            } else {
                0
            }) == (if j < b.len() {
                b[j]
            } else {
                0
            }),
        (if i < a.len() {
            a[i]
        } else {
            0
        }) > (if i < b.len() {
            b[i]
        } else {
            0
        }),
    ensures
        version_newer(a, b),
        !version_newer(b, a),
{
    lemma_gt_from_prefix(a, b, 0, i);
    lemma_gt_from_prefix(b, a, 0, i);
}

/// Versions whose numbers agree (a missing number counting as 0) are not
/// newer than each other.
pub proof fn law_version_equal(a: Seq<nat>, b: Seq<nat>)
    requires
        forall|j: int|
            0 <= j ==> (if j < a.len() {
                a[j]
            } else {
                0
            }) == (if j < b.len() {
                b[j]
            } else {
                0
            }),
    ensures
        !version_newer(a, b),
        !version_newer(b, a),
{
    lemma_gt_from_equal(a, b, 0);
    lemma_gt_from_equal(b, a, 0);
}

proof fn lemma_gt_from_equal(a: Seq<nat>, b: Seq<nat>, i: int)
    requires
        0 <= i,
        forall|j: int| 0 <= j ==> component(a, j) == component(b, j),
    ensures
        !version_gt_from(a, b, i),
    decreases a.len() + b.len() - i,
{
    if !(i >= a.len() && i >= b.len()) {
        assert(component(a, i) == component(b, i));
        lemma_gt_from_equal(a, b, i + 1);
    }
}

proof fn lemma_gt_from_prefix(a: Seq<nat>, b: Seq<nat>, k: int, i: int)
    requires
        0 <= k <= i,
        forall|j: int| k <= j < i ==> component(a, j) == component(b, j),
    ensures
        version_gt_from(a, b, k) == version_gt_from(a, b, i),
    decreases i - k,
{
    if k < i {
        assert(component(a, k) == component(b, k));
        lemma_gt_from_prefix(a, b, k + 1, i);
    }
}

/// A release with higher numbers than the running version is reported, and
/// one with lower numbers is not.
pub proof fn law_higher_release_reported(
    remote: Seq<char>,
    current: Seq<char>,
    r: Seq<nat>,
    c: Seq<nat>,
    i: int,
)
    requires
        core_values(remote) == Some(r),
        core_values(current) == Some(c),
        0 <= i,
        forall|j: int|
            0 <= j < i ==> (if j < r.len() {
                r[j]
            } else {
                0
            }) == (if j < c.len() {
                c[j]
            } else {
                0
            }),
        (if i < r.len() {
            r[i]
        } else {
            0
        }) != (if i < c.len() {
            c[i]
        } else {
            0
        }),
    ensures
        reported(remote, current) == ((if i < r.len() {
            r[i]
        } else {
            0
        }) > (if i < c.len() {
            c[i]
        } else {
            0
        })),
{
    if (if i < r.len() {
        r[i]
    } else {
        0
    }) > (if i < c.len() {
        c[i]
    } else {
        0
    }) {
        law_version_first_difference(r, c, i);
        if remote.len() == 0 || remote == current {
            assert(r == c);
        }
    } else {
        assert forall|j: int|
            0 <= j < i implies (if j < c.len() {
                c[j]
            } else {
                0
            }) == (if j < r.len() {
                r[j]
            } else {
                0
            }) by {}
        law_version_first_difference(c, r, i);
    }
}

} // verus!
