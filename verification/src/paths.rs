//! Unix path text as `std::path::Path` reads it on Unix targets: `/`-separated parts, the root, a
//! leading `.`, the file name, its extension, and joining. A `\` is an ordinary character here, as it
//! is on Unix; Windows prefixes and separators are not modelled.

use vstd::prelude::*;

verus! {

/// A part between separators that names something: not empty and not `.` (so `..` counts).
pub open spec fn is_named(part: Seq<char>) -> bool {
    part.len() > 0 && part != seq!['.']
}

/// Index of the first `/` in `s`, or `s.len()` when there is none.
pub open spec fn first_sep(s: Seq<char>) -> int
    decreases s.len(),
{
    if s.len() == 0 {
        0
    } else if s[0] == '/' {
        0
    } else {
        1 + first_sep(s.drop_first())
    }
}

pub proof fn lemma_first_sep(s: Seq<char>, j: int)
    requires
        0 <= j <= s.len(),
        forall|m: int| 0 <= m < j ==> s[m] != '/',
        j == s.len() || s[j] == '/',
    ensures
        first_sep(s) == j,
    decreases s.len(),
{
    if s.len() > 0 && s[0] != '/' {
        let t = s.drop_first();
        assert forall|m: int| 0 <= m < j - 1 implies t[m] != '/' by {
            assert(t[m] == s[m + 1]);
        }
        if j < s.len() {
            assert(t[j - 1] == s[j]);
        }
        lemma_first_sep(t, j - 1);
    }
}

pub proof fn lemma_first_sep_bounds(s: Seq<char>)
    ensures
        0 <= first_sep(s) <= s.len(),
    decreases s.len(),
{
    if s.len() > 0 && s[0] != '/' {
        lemma_first_sep_bounds(s.drop_first());
    }
}

/// The number of named parts of `s`.
pub open spec fn count_named(s: Seq<char>) -> nat
    decreases s.len(),
{
    let i = first_sep(s);
    let here: nat = if is_named(s.take(i)) { 1 } else { 0 };
    if 0 <= i < s.len() {
        here + count_named(s.skip(i + 1))
    } else {
        here
    }
}

/// The last named part of `s`, if any.
pub open spec fn last_named(s: Seq<char>) -> Option<Seq<char>>
    decreases s.len(),
{
    let i = first_sep(s);
    let rest = if 0 <= i < s.len() {
        last_named(s.skip(i + 1))
    } else {
        None
    };
    if rest is Some {
        rest
    } else if is_named(s.take(i)) {
        Some(s.take(i))
    } else {
        None
    }
}

/// The path has a root (`/`).
pub open spec fn has_root(s: Seq<char>) -> bool {
    s.len() > 0 && s[0] == '/'
}

/// A relative path that starts with a `.` part, which `Path::components` keeps as `CurDir`.
pub open spec fn has_leading_cur_dir(s: Seq<char>) -> bool {
    !has_root(s) && s.len() > 0 && s[0] == '.' && (s.len() == 1 || s[1] == '/')
}

/// The number of items `Path::components` yields on Unix: the root, a leading `.`, and every named
/// part (separators repeat freely and inner or trailing `.` parts are normalized away).
pub open spec fn component_count(s: Seq<char>) -> nat {
    (if has_root(s) { 1nat } else { 0nat }) + (if has_leading_cur_dir(s) { 1nat } else { 0nat }) + count_named(s)
}

/// `Path::file_name`: the last component when it is a named part other than `..`.
pub open spec fn file_name(s: Seq<char>) -> Option<Seq<char>> {
    match last_named(s) {
        Some(n) => if n == seq!['.', '.'] {
            None
        } else {
            Some(n)
        },
        None => None,
    }
}

/// `Path::extension` of a file name: the text after its last `.`, unless there is no `.` or the only
/// `.` is the first character.
pub open spec fn name_extension(name: Seq<char>) -> Option<Seq<char>> {
    if exists|i: int| 0 < i < name.len() && name[i] == '.' && forall|m: int| i < m < name.len() ==> name[m] != '.' {
        let i = choose|i: int|
            0 < i < name.len() && name[i] == '.' && forall|m: int| i < m < name.len() ==> name[m] != '.';
        Some(name.skip(i + 1))
    } else {
        None
    }
}

/// `Path::extension`.
pub open spec fn extension(s: Seq<char>) -> Option<Seq<char>> {
    match file_name(s) {
        Some(n) => name_extension(n),
        None => None,
    }
}

/// What a single left-to-right pass over the parts of a path finds.
pub struct PathScan {
    /// Number of named parts.
    pub named: usize,
    /// Bounds of the last named part.
    pub last: Option<(usize, usize)>,
}

/// One pass over the parts of `v`: how many are named, and where the last named one is.
pub fn scan_parts(v: &Vec<char>) -> (r: PathScan)
    ensures
        r.named == count_named(v@),
        2 * r.named <= v.len() + 1,
        match r.last {
            Some((a, b)) => a <= b <= v.len() && last_named(v@) == Some(v@.subrange(a as int, b as int)),
            None => last_named(v@) is None,
        },
{
    let n = v.len();
    let mut named: usize = 0;
    let mut last: Option<(usize, usize)> = None;
    let mut start: usize = 0;
    let mut done = false;
    assert(v@.skip(0) =~= v@);
    // Invariant: the parts before `start` are accounted for; `start` begins a part.
    while !done
        invariant
            n == v@.len(),
            start <= n,
            2 * named <= start + (if done { 1int } else { 0int }),
            !done ==> count_named(v@) == named + count_named(v@.skip(start as int)),
            !done ==> last_named(v@) == (if last_named(v@.skip(start as int)) is Some {
                last_named(v@.skip(start as int))
            } else {
                match last {
                    Some((a, b)) => Some(v@.subrange(a as int, b as int)),
                    None => None,
                }
            }),
            done ==> count_named(v@) == named,
            done ==> last_named(v@) == (match last {
                Some((a, b)) => Some(v@.subrange(a as int, b as int)),
                None => None,
            }),
            match last {
                Some((a, b)) => a <= b <= start,
                None => true,
            },
        decreases n - start + (if done { 0int } else { 1int }),
    {
        let mut j = start;
        while j < n && v[j] != '/'
            invariant
                n == v@.len(),
                start <= j <= n,
                forall|m: int| start <= m < j ==> v@[m] != '/',
            decreases n - j,
        {
            j = j + 1;
        }
        let ghost rest = v@.skip(start as int);
        proof {
            assert forall|m: int| 0 <= m < j - start implies rest[m] != '/' by {
                assert(rest[m] == v@[m + start]);
            }
            if j < n {
                assert(rest[j - start] == v@[j as int]);
            }
            lemma_first_sep(rest, j - start);
            assert(rest.take(j - start) =~= v@.subrange(start as int, j as int));
        }
        let part_named = j > start && !(j == start + 1 && v[start] == '.');
        assert(part_named == is_named(v@.subrange(start as int, j as int))) by {
            if j == start + 1 {
                if v@.subrange(start as int, j as int) == seq!['.'] {
                    assert(v@.subrange(start as int, j as int)[0] == v@[start as int]);
                }
                if v@[start as int] == '.' {
                    assert(v@.subrange(start as int, j as int) =~= seq!['.']);
                }
            }
        }
        if part_named {
            named = named + 1;
        }
        if j < n {
            assert(rest.skip(j - start + 1) =~= v@.skip(j + 1));
            if part_named {
                last = Some((start, j));
            }
            start = j + 1;
        } else {
            if part_named {
                last = Some((start, j));
            }
            start = j;
            done = true;
        }
    }
    PathScan { named, last }
}

/// Number of components `Path::components` yields for `s` on Unix.
pub fn path_component_count(s: &Vec<char>) -> (r: usize)
    ensures
        r == component_count(s@),
{
    let scan = scan_parts(s);
    let root = s.len() > 0 && s[0] == '/';
    let cur = !root && s.len() > 0 && s[0] == '.' && (s.len() == 1 || s[1] == '/');
    let mut r = scan.named;
    if root {
        r = r + 1;
    }
    if cur {
        r = r + 1;
    }
    r
}

/// `Path::file_name` as bounds into `s`.
pub fn file_name_bounds(s: &Vec<char>) -> (r: Option<(usize, usize)>)
    ensures
        match r {
            Some((a, b)) => a <= b <= s.len() && file_name(s@) == Some(s@.subrange(a as int, b as int)),
            None => file_name(s@) is None,
        },
{
    let scan = scan_parts(s);
    match scan.last {
        Some((a, b)) => {
            if b - a == 2 && s[a] == '.' && s[a + 1] == '.' {
                assert(s@.subrange(a as int, b as int) =~= seq!['.', '.']);
                None
            } else {
                let ghost sub = s@.subrange(a as int, b as int);
                assert(sub != seq!['.', '.']) by {
                    if sub == seq!['.', '.'] {
                        assert(sub.len() == 2);
                        assert(sub[0] == s@[a as int]);
                        assert(sub[1] == s@[a + 1]);
                    }
                }
                Some((a, b))
            }
        },
        None => None,
    }
}

/// `Path::extension` as bounds into `s`.
pub fn extension_bounds(s: &Vec<char>) -> (r: Option<(usize, usize)>)
    ensures
        match r {
            Some((a, b)) => a <= b <= s.len() && extension(s@) == Some(s@.subrange(a as int, b as int)),
            None => extension(s@) is None,
        },
{
    let (a, b) = match file_name_bounds(s) {
        Some(ab) => ab,
        None => return None,
    };
    let ghost name = s@.subrange(a as int, b as int);
    // Find the last `.` of the name.
    let mut i = b;
    while i > a && s[i - 1] != '.'
        invariant
            a <= i <= b <= s.len(),
            forall|m: int| i <= m < b ==> s@[m] != '.',
        decreases i - a,
    {
        i = i - 1;
    }
    if i - a <= 1 {
        // No `.` at all, or only a leading one.
        assert(!exists|k: int| 0 < k < name.len() && name[k] == '.' && forall|m: int|
            k < m < name.len() ==> name[m] != '.') by {
            if exists|k: int| 0 < k < name.len() && name[k] == '.' && forall|m: int|
                k < m < name.len() ==> name[m] != '.' {
                let k = choose|k: int| 0 < k < name.len() && name[k] == '.' && forall|m: int|
                    k < m < name.len() ==> name[m] != '.';
                assert(name[k] == s@[a + k]);
            }
        }
        None
    } else {
        let dot = i - 1;
        let ghost k0 = dot - a;
        assert(name[k0] == s@[dot as int]);
        assert forall|m: int| k0 < m < name.len() implies name[m] != '.' by {
            assert(name[m] == s@[a + m]);
        }
        let ghost k = choose|k: int| 0 < k < name.len() && name[k] == '.' && forall|m: int|
            k < m < name.len() ==> name[m] != '.';
        assert(k == k0) by {
            if k < k0 {
                assert(name[k0] != '.');
            } else if k > k0 {
                assert(name[k] != '.');
            }
        }
        assert(name.skip(k0 + 1) =~= s@.subrange(i as int, b as int));
        Some((i, b))
    }
}


/// The named parts of `s`, in order.
pub open spec fn named_parts(s: Seq<char>) -> Seq<Seq<char>>
    decreases s.len(),
{
    let i = first_sep(s);
    let here: Seq<Seq<char>> = if is_named(s.take(i)) { seq![s.take(i)] } else { Seq::empty() };
    if 0 <= i < s.len() {
        here + named_parts(s.skip(i + 1))
    } else {
        here
    }
}

/// `Path`'s `==` on Unix: the same components (root, leading `.`, named parts).
pub open spec fn same_path(s: Seq<char>, t: Seq<char>) -> bool {
    &&& has_root(s) == has_root(t)
    &&& has_leading_cur_dir(s) == has_leading_cur_dir(t)
    &&& named_parts(s) == named_parts(t)
}

/// Bounds of the named parts of `v`, in order.
pub fn named_part_bounds(v: &Vec<char>) -> (r: Vec<(usize, usize)>)
    ensures
        r@.len() == named_parts(v@).len(),
        forall|k: int| 0 <= k < r@.len() ==> {
            &&& (#[trigger] r@[k]).0 <= r@[k].1 <= v.len()
            &&& v@.subrange(r@[k].0 as int, r@[k].1 as int) == named_parts(v@)[k]
        },
{
    let n = v.len();
    let mut r: Vec<(usize, usize)> = Vec::new();
    let mut start: usize = 0;
    let mut done = false;
    let ghost mut seen: Seq<Seq<char>> = Seq::empty();
    assert(v@.skip(0) =~= v@);
    while !done
        invariant
            n == v@.len(),
            start <= n,
            r@.len() == seen.len(),
            forall|k: int| 0 <= k < r@.len() ==> {
                &&& (#[trigger] r@[k]).0 <= r@[k].1 <= n
                &&& v@.subrange(r@[k].0 as int, r@[k].1 as int) == seen[k]
            },
            !done ==> named_parts(v@) == seen + named_parts(v@.skip(start as int)),
            done ==> named_parts(v@) == seen,
        decreases n - start + (if done { 0int } else { 1int }),
    {
        let mut j = start;
        while j < n && v[j] != '/'
            invariant
                n == v@.len(),
                start <= j <= n,
                forall|m: int| start <= m < j ==> v@[m] != '/',
            decreases n - j,
        {
            j = j + 1;
        }
        let ghost rest = v@.skip(start as int);
        let ghost part = v@.subrange(start as int, j as int);
        proof {
            assert forall|m: int| 0 <= m < j - start implies rest[m] != '/' by {
                assert(rest[m] == v@[m + start]);
            }
            if j < n {
                assert(rest[j - start] == v@[j as int]);
            }
            lemma_first_sep(rest, j - start);
            assert(rest.take(j - start) =~= part);
        }
        let part_named = j > start && !(j == start + 1 && v[start] == '.');
        assert(part_named == is_named(part)) by {
            if j == start + 1 {
                if part == seq!['.'] {
                    assert(part[0] == v@[start as int]);
                }
                if v@[start as int] == '.' {
                    assert(part =~= seq!['.']);
                }
            }
        }
        let ghost here: Seq<Seq<char>> = if part_named { seq![part] } else { Seq::empty() };
        if part_named {
            r.push((start, j));
        }
        proof {
            if j < n {
                assert(rest.skip(j - start + 1) =~= v@.skip(j + 1));
            }
            assert(seen + here + named_parts(rest.skip(j - start + 1)) =~= seen + (here + named_parts(
                rest.skip(j - start + 1),
            )));
            assert(seen + here =~= seen + here);
            seen = seen + here;
        }
        if j < n {
            start = j + 1;
        } else {
            start = j;
            done = true;
        }
    }
    r
}

/// Whether `v[a..b]` equals `w[c..d]`.
pub fn ranges_equal(v: &Vec<char>, a: usize, b: usize, w: &Vec<char>, c: usize, d: usize) -> (r: bool)
    requires
        a <= b <= v.len(),
        c <= d <= w.len(),
    ensures
        r == (v@.subrange(a as int, b as int) == w@.subrange(c as int, d as int)),
{
    if b - a != d - c {
        assert(v@.subrange(a as int, b as int).len() != w@.subrange(c as int, d as int).len());
        return false;
    }
    let ghost sv = v@.subrange(a as int, b as int);
    let ghost sw = w@.subrange(c as int, d as int);
    let mut k: usize = 0;
    while k < b - a
        invariant
            a <= b <= v.len(),
            c <= d <= w.len(),
            b - a == d - c,
            sv == v@.subrange(a as int, b as int),
            sw == w@.subrange(c as int, d as int),
            k <= b - a,
            forall|m: int| 0 <= m < k ==> #[trigger] sv[m] == sw[m],
        decreases b - a - k,
    {
        assert(sv[k as int] == v@[a + k] && sw[k as int] == w@[c + k]);
        if v[a + k] != w[c + k] {
            return false;
        }
        k = k + 1;
    }
    assert(v@.subrange(a as int, b as int) =~= w@.subrange(c as int, d as int));
    true
}

/// Whether `s` and `t` name the same path, as `Path`'s `==` decides on Unix.
pub fn same_path_exec(s: &Vec<char>, t: &Vec<char>) -> (r: bool)
    ensures
        r == same_path(s@, t@),
{
    let s_root = s.len() > 0 && s[0] == '/';
    let t_root = t.len() > 0 && t[0] == '/';
    let s_cur = !s_root && s.len() > 0 && s[0] == '.' && (s.len() == 1 || s[1] == '/');
    let t_cur = !t_root && t.len() > 0 && t[0] == '.' && (t.len() == 1 || t[1] == '/');
    if s_root != t_root || s_cur != t_cur {
        return false;
    }
    let sp = named_part_bounds(s);
    let tp = named_part_bounds(t);
    if sp.len() != tp.len() {
        assert(named_parts(s@).len() != named_parts(t@).len());
        return false;
    }
    let mut k: usize = 0;
    while k < sp.len()
        invariant
            sp@.len() == tp@.len(),
            sp@.len() == named_parts(s@).len(),
            tp@.len() == named_parts(t@).len(),
            forall|m: int| 0 <= m < sp@.len() ==> {
                &&& (#[trigger] sp@[m]).0 <= sp@[m].1 <= s.len()
                &&& s@.subrange(sp@[m].0 as int, sp@[m].1 as int) == named_parts(s@)[m]
            },
            forall|m: int| 0 <= m < tp@.len() ==> {
                &&& (#[trigger] tp@[m]).0 <= tp@[m].1 <= t.len()
                &&& t@.subrange(tp@[m].0 as int, tp@[m].1 as int) == named_parts(t@)[m]
            },
            k <= sp@.len(),
            forall|m: int| 0 <= m < k ==> named_parts(s@)[m] == named_parts(t@)[m],
        decreases sp@.len() - k,
    {
        let (a, b) = sp[k];
        let (c, d) = tp[k];
        if !ranges_equal(s, a, b, t, c, d) {
            assert(named_parts(s@)[k as int] != named_parts(t@)[k as int]);
            return false;
        }
        k = k + 1;
    }
    assert(named_parts(s@) =~= named_parts(t@));
    true
}

/// `Path::join` with a relative `rel` on Unix: a `/` goes between unless `base` is empty or already
/// ends with one.
pub open spec fn join(base: Seq<char>, rel: Seq<char>) -> Seq<char> {
    if base.len() == 0 || base.last() == '/' {
        base + rel
    } else {
        base + seq!['/'] + rel
    }
}

/// Joining a relative path adds exactly one `/` between a non-empty base and it, and none after a base
/// that already ends in `/`.
pub proof fn joining_puts_one_separator_between(base: Seq<char>, rel: Seq<char>)
    ensures
        base.len() > 0 && base.last() != '/' ==> join(base, rel) == base + seq!['/'] + rel,
        base.len() > 0 && base.last() == '/' ==> join(base, rel) == base + rel,
        base.len() == 0 ==> join(base, rel) == rel,
{
    assert(Seq::<char>::empty() + rel =~= rel);
}

} // verus!
