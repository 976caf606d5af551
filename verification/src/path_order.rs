//! `Path`'s ordering on Unix, and the sorted, duplicate-free list of module directories it gives.
//!
//! Paths compare by their components: the root, a leading `.`, then the named parts, where a `..` part
//! is `ParentDir` and any other is `Normal`. Components order as `RootDir < CurDir < ParentDir <
//! Normal`, and `Normal` parts by their text.

use vstd::prelude::*;
use crate::paths::{has_leading_cur_dir, has_root, named_part_bounds, named_parts, same_path, same_path_exec};
use crate::text::{chars_of, lemma_lex_le_total, lemma_lex_le_transitive, lex_le, lex_le_exec};

verus! {

/// A component's place in the order: its kind's rank and, for a `Normal` part, its text.
pub type ComponentKey = (int, Seq<char>);

/// The key of a named part: `ParentDir` for `..`, else `Normal` with its text.
pub open spec fn component_key(part: Seq<char>) -> ComponentKey {
    if part == seq!['.', '.'] {
        (2, Seq::empty())
    } else {
        (3, part)
    }
}

/// The component keys of a path, in order.
pub open spec fn path_key(s: Seq<char>) -> Seq<ComponentKey> {
    (if has_root(s) {
        seq![(0int, Seq::<char>::empty())]
    } else {
        Seq::empty()
    }) + (if has_leading_cur_dir(s) {
        seq![(1int, Seq::<char>::empty())]
    } else {
        Seq::empty()
    }) + named_parts(s).map_values(|p: Seq<char>| component_key(p))
}

pub open spec fn key_le(a: ComponentKey, b: ComponentKey) -> bool {
    a.0 < b.0 || (a.0 == b.0 && lex_le(a.1, b.1))
}

/// Lexicographic order on component keys.
pub open spec fn keys_le(a: Seq<ComponentKey>, b: Seq<ComponentKey>) -> bool
    decreases a.len(),
{
    if a.len() == 0 {
        true
    } else if b.len() == 0 {
        false
    } else if a[0] != b[0] {
        key_le(a[0], b[0])
    } else {
        keys_le(a.drop_first(), b.drop_first())
    }
}

/// `s <= t` in `Path`'s ordering.
#[verifier::opaque]
pub open spec fn path_le(s: Seq<char>, t: Seq<char>) -> bool {
    keys_le(path_key(s), path_key(t))
}

/// `s == t` for `Path`.
#[verifier::opaque]
pub open spec fn path_eq(s: Seq<char>, t: Seq<char>) -> bool {
    same_path(s, t)
}

/// `str`'s ordering is antisymmetric.
pub proof fn lemma_lex_le_antisymmetric(a: Seq<char>, b: Seq<char>)
    requires
        lex_le(a, b),
        lex_le(b, a),
    ensures
        a == b,
    decreases a.len(),
{
    if a.len() > 0 && b.len() > 0 {
        if a[0] == b[0] {
            lemma_lex_le_antisymmetric(a.drop_first(), b.drop_first());
            assert(a =~= seq![a[0]] + a.drop_first());
            assert(b =~= seq![b[0]] + b.drop_first());
        }
    } else {
        assert(a.len() == 0 && b.len() == 0);
        assert(a =~= b);
    }
}

proof fn lemma_key_le_total(a: ComponentKey, b: ComponentKey)
    ensures
        key_le(a, b) || key_le(b, a),
{
    lemma_lex_le_total(a.1, b.1);
}

proof fn lemma_key_le_antisymmetric(a: ComponentKey, b: ComponentKey)
    requires
        key_le(a, b),
        key_le(b, a),
    ensures
        a == b,
{
    if a.0 == b.0 {
        lemma_lex_le_antisymmetric(a.1, b.1);
    }
}

proof fn lemma_key_le_transitive(a: ComponentKey, b: ComponentKey, c: ComponentKey)
    requires
        key_le(a, b),
        key_le(b, c),
    ensures
        key_le(a, c),
{
    if a.0 == b.0 && b.0 == c.0 {
        lemma_lex_le_transitive(a.1, b.1, c.1);
    }
}

/// The key order is total.
pub proof fn lemma_keys_le_total(a: Seq<ComponentKey>, b: Seq<ComponentKey>)
    ensures
        keys_le(a, b) || keys_le(b, a),
    decreases a.len(),
{
    if a.len() > 0 && b.len() > 0 {
        if a[0] == b[0] {
            lemma_keys_le_total(a.drop_first(), b.drop_first());
        } else {
            lemma_key_le_total(a[0], b[0]);
        }
    }
}

/// The key order is antisymmetric.
pub proof fn lemma_keys_le_antisymmetric(a: Seq<ComponentKey>, b: Seq<ComponentKey>)
    requires
        keys_le(a, b),
        keys_le(b, a),
    ensures
        a == b,
    decreases a.len(),
{
    if a.len() > 0 && b.len() > 0 {
        if a[0] == b[0] {
            lemma_keys_le_antisymmetric(a.drop_first(), b.drop_first());
            assert(a =~= seq![a[0]] + a.drop_first());
            assert(b =~= seq![b[0]] + b.drop_first());
        } else {
            lemma_key_le_antisymmetric(a[0], b[0]);
        }
    } else {
        assert(a =~= b);
    }
}

/// The key order is transitive.
pub proof fn lemma_keys_le_transitive(a: Seq<ComponentKey>, b: Seq<ComponentKey>, c: Seq<ComponentKey>)
    requires
        keys_le(a, b),
        keys_le(b, c),
    ensures
        keys_le(a, c),
    decreases a.len(),
{
    if a.len() > 0 && b.len() > 0 && c.len() > 0 {
        if a[0] == b[0] && b[0] == c[0] {
            lemma_keys_le_transitive(a.drop_first(), b.drop_first(), c.drop_first());
        } else if a[0] == b[0] {
            assert(key_le(b[0], c[0]));
        } else if b[0] == c[0] {
            assert(key_le(a[0], b[0]));
        } else {
            lemma_key_le_transitive(a[0], b[0], c[0]);
            if a[0] == c[0] {
                lemma_key_le_antisymmetric(a[0], b[0]);
            }
        }
    }
}

proof fn lemma_component_key_injective(p: Seq<char>, q: Seq<char>)
    requires
        component_key(p) == component_key(q),
    ensures
        p == q,
{
}

/// Two paths are `==` exactly when their component keys are equal.
pub proof fn lemma_same_path_iff_same_key(s: Seq<char>, t: Seq<char>)
    ensures
        same_path(s, t) <==> path_key(s) == path_key(t),
{
    let f = |p: Seq<char>| component_key(p);
    let rs: Seq<ComponentKey> = if has_root(s) { seq![(0int, Seq::<char>::empty())] } else { Seq::empty() };
    let rt: Seq<ComponentKey> = if has_root(t) { seq![(0int, Seq::<char>::empty())] } else { Seq::empty() };
    let cs: Seq<ComponentKey> = if has_leading_cur_dir(s) { seq![(1int, Seq::<char>::empty())] } else { Seq::empty() };
    let ct: Seq<ComponentKey> = if has_leading_cur_dir(t) { seq![(1int, Seq::<char>::empty())] } else { Seq::empty() };
    let ns = named_parts(s).map_values(f);
    let nt = named_parts(t).map_values(f);
    assert(path_key(s) == rs + cs + ns);
    assert(path_key(t) == rt + ct + nt);
    assert(!(has_root(s) && has_leading_cur_dir(s)));
    assert(!(has_root(t) && has_leading_cur_dir(t)));
    assert(forall|k: int| 0 <= k < ns.len() ==> (#[trigger] ns[k]).0 >= 2);
    assert(forall|k: int| 0 <= k < nt.len() ==> (#[trigger] nt[k]).0 >= 2);
    if path_key(s) == path_key(t) {
        let ks = path_key(s);
        if has_root(s) != has_root(t) {
            if has_root(s) {
                assert(ks[0].0 == 0);
                assert(ks.len() > 0);
                if has_leading_cur_dir(t) {
                    assert((rt + ct + nt)[0].0 == 1);
                } else {
                    assert((rt + ct + nt)[0] == nt[0]);
                }
            } else {
                assert(path_key(t)[0].0 == 0);
                if has_leading_cur_dir(s) {
                    assert((rs + cs + ns)[0].0 == 1);
                } else {
                    assert((rs + cs + ns)[0] == ns[0]);
                }
            }
            assert(false);
        }
        if has_leading_cur_dir(s) != has_leading_cur_dir(t) {
            if has_leading_cur_dir(s) {
                assert((rs + cs + ns)[0].0 == 1);
                assert((rt + ct + nt)[0] == nt[0]);
            } else {
                assert((rt + ct + nt)[0].0 == 1);
                assert((rs + cs + ns)[0] == ns[0]);
            }
            assert(false);
        }
        assert(rs == rt && cs == ct);
        assert(ns =~= (rs + cs + ns).skip((rs.len() + cs.len()) as int));
        assert(nt =~= (rt + ct + nt).skip((rt.len() + ct.len()) as int));
        assert(ns == nt);
        assert(named_parts(s).len() == named_parts(t).len());
        assert forall|k: int| 0 <= k < named_parts(s).len() implies named_parts(s)[k] == named_parts(t)[k] by {
            assert(ns[k] == component_key(named_parts(s)[k]));
            assert(nt[k] == component_key(named_parts(t)[k]));
            lemma_component_key_injective(named_parts(s)[k], named_parts(t)[k]);
        }
        assert(named_parts(s) =~= named_parts(t));
    }
    if same_path(s, t) {
        assert(ns =~= nt);
    }
}


proof fn lemma_path_eq_reflexive(s: Seq<char>)
    ensures
        path_eq(s, s),
{
    reveal(path_eq);
}

proof fn lemma_path_eq_symmetric(s: Seq<char>, t: Seq<char>)
    requires
        path_eq(s, t),
    ensures
        path_eq(t, s),
{
    reveal(path_eq);
}

proof fn lemma_path_eq_transitive(s: Seq<char>, t: Seq<char>, u: Seq<char>)
    requires
        path_eq(s, t),
        path_eq(t, u),
    ensures
        path_eq(s, u),
{
    reveal(path_eq);
}

/// `Path`'s ordering is total.
pub proof fn lemma_path_le_total(s: Seq<char>, t: Seq<char>)
    ensures
        path_le(s, t) || path_le(t, s),
{
    reveal(path_le);
    lemma_keys_le_total(path_key(s), path_key(t));
}

/// `Path`'s ordering is transitive.
pub proof fn lemma_path_le_transitive(s: Seq<char>, t: Seq<char>, u: Seq<char>)
    requires
        path_le(s, t),
        path_le(t, u),
    ensures
        path_le(s, u),
{
    reveal(path_le);
    lemma_keys_le_transitive(path_key(s), path_key(t), path_key(u));
}

/// Paths ordered both ways are `==`.
pub proof fn lemma_path_le_antisymmetric(s: Seq<char>, t: Seq<char>)
    requires
        path_le(s, t),
        path_le(t, s),
    ensures
        path_eq(s, t),
{
    reveal(path_le);
    reveal(path_eq);
    lemma_keys_le_antisymmetric(path_key(s), path_key(t));
    lemma_same_path_iff_same_key(s, t);
}

pub open spec fn key_view(k: (u8, Vec<char>)) -> ComponentKey {
    (k.0 as int, k.1@)
}

pub open spec fn keys_view(ks: Seq<(u8, Vec<char>)>) -> Seq<ComponentKey> {
    ks.map_values(|k: (u8, Vec<char>)| key_view(k))
}

fn chars_range(v: &Vec<char>, a: usize, b: usize) -> (r: Vec<char>)
    requires
        a <= b <= v.len(),
    ensures
        r@ == v@.subrange(a as int, b as int),
{
    let mut r: Vec<char> = Vec::new();
    let mut i = a;
    while i < b
        invariant
            a <= i <= b <= v.len(),
            r@ == v@.subrange(a as int, i as int),
        decreases b - i,
    {
        r.push(v[i]);
        i = i + 1;
        assert(r@ =~= v@.subrange(a as int, i as int));
    }
    r
}

/// The component keys of the path text `v`.
fn path_key_exec(v: &Vec<char>) -> (r: Vec<(u8, Vec<char>)>)
    ensures
        keys_view(r@) == path_key(v@),
{
    let mut r: Vec<(u8, Vec<char>)> = Vec::new();
    let root = v.len() > 0 && v[0] == '/';
    let cur = !root && v.len() > 0 && v[0] == '.' && (v.len() == 1 || v[1] == '/');
    if root {
        r.push((0u8, Vec::new()));
    }
    if cur {
        r.push((1u8, Vec::new()));
    }
    let ghost head = keys_view(r@);
    let ghost rs: Seq<ComponentKey> = if has_root(v@) { seq![(0int, Seq::<char>::empty())] } else { Seq::empty() };
    let ghost cs: Seq<ComponentKey> = if has_leading_cur_dir(v@) {
        seq![(1int, Seq::<char>::empty())]
    } else {
        Seq::empty()
    };
    assert(head =~= rs + cs);
    let parts = named_part_bounds(v);
    let ghost named = named_parts(v@);
    let mut k: usize = 0;
    while k < parts.len()
        invariant
            parts@.len() == named.len(),
            named == named_parts(v@),
            forall|m: int| 0 <= m < parts@.len() ==> {
                &&& (#[trigger] parts@[m]).0 <= parts@[m].1 <= v.len()
                &&& v@.subrange(parts@[m].0 as int, parts@[m].1 as int) == named[m]
            },
            k <= parts@.len(),
            keys_view(r@) == head + named.take(k as int).map_values(|p: Seq<char>| component_key(p)),
        decreases parts@.len() - k,
    {
        let (a, b) = parts[k];
        let part = chars_range(v, a, b);
        let parent = part.len() == 2 && part[0] == '.' && part[1] == '.';
        assert(parent == (part@ == seq!['.', '.'])) by {
            if part@ == seq!['.', '.'] {
                assert(part@.len() == 2 && part@[0] == '.' && part@[1] == '.');
            }
            if parent {
                assert(part@ =~= seq!['.', '.']);
            }
        }
        let ghost before = keys_view(r@);
        if parent {
            r.push((2u8, Vec::new()));
        } else {
            r.push((3u8, part));
        }
        proof {
            assert(keys_view(r@) =~= before.push(component_key(named[k as int])));
            assert(named.take(k + 1).map_values(|p: Seq<char>| component_key(p)) =~= named.take(k as int).map_values(
                |p: Seq<char>| component_key(p),
            ).push(component_key(named[k as int])));
        }
        k = k + 1;
    }
    assert(named.take(named.len() as int) =~= named);
    r
}

proof fn lemma_keys_le_skip(a: Seq<ComponentKey>, b: Seq<ComponentKey>, i: int)
    requires
        0 <= i <= a.len(),
        i <= b.len(),
        forall|m: int| 0 <= m < i ==> a[m] == b[m],
    ensures
        keys_le(a, b) == keys_le(a.skip(i), b.skip(i)),
    decreases i,
{
    if i == 0 {
        assert(a.skip(0) =~= a);
        assert(b.skip(0) =~= b);
    } else {
        assert forall|m: int| 0 <= m < i - 1 implies a.drop_first()[m] == b.drop_first()[m] by {
            assert(a.drop_first()[m] == a[m + 1]);
        }
        lemma_keys_le_skip(a.drop_first(), b.drop_first(), i - 1);
        assert(a.drop_first().skip(i - 1) =~= a.skip(i));
        assert(b.drop_first().skip(i - 1) =~= b.skip(i));
    }
}

fn key_equal(a: &(u8, Vec<char>), b: &(u8, Vec<char>)) -> (r: bool)
    ensures
        r == (key_view(*a) == key_view(*b)),
{
    if a.0 != b.0 || a.1.len() != b.1.len() {
        assert(key_view(*a) != key_view(*b)) by {
            if key_view(*a) == key_view(*b) {
                assert(a.1@.len() == b.1@.len());
            }
        }
        return false;
    }
    let mut i: usize = 0;
    while i < a.1.len()
        invariant
            a.1@.len() == b.1@.len(),
            i <= a.1@.len(),
            forall|m: int| 0 <= m < i ==> a.1@[m] == b.1@[m],
        decreases a.1@.len() - i,
    {
        if a.1[i] != b.1[i] {
            return false;
        }
        i = i + 1;
    }
    assert(a.1@ =~= b.1@);
    true
}

/// Whether `a <= b` in the key order.
fn keys_le_exec(a: &Vec<(u8, Vec<char>)>, b: &Vec<(u8, Vec<char>)>) -> (r: bool)
    ensures
        r == keys_le(keys_view(a@), keys_view(b@)),
{
    let ghost ka = keys_view(a@);
    let ghost kb = keys_view(b@);
    let mut i: usize = 0;
    while i < a.len() && i < b.len() && key_equal(&a[i], &b[i])
        invariant
            ka == keys_view(a@),
            kb == keys_view(b@),
            i <= a.len(),
            i <= b.len(),
            forall|m: int| 0 <= m < i ==> ka[m] == kb[m],
        decreases a.len() - i,
    {
        i = i + 1;
    }
    proof {
        lemma_keys_le_skip(ka, kb, i as int);
    }
    if i == a.len() {
        true
    } else if i == b.len() {
        false
    } else {
        assert(ka.skip(i as int)[0] == ka[i as int]);
        assert(kb.skip(i as int)[0] == kb[i as int]);
        if a[i].0 != b[i].0 {
            a[i].0 < b[i].0
        } else {
            lex_le_exec(&a[i].1, &b[i].1)
        }
    }
}

/// Index `i` holds the first path of its `==`-class in `input`.
pub open spec fn first_of_class(input: Seq<Seq<char>>, i: int) -> bool {
    &&& 0 <= i < input.len()
    &&& forall|m: int| 0 <= m < i ==> !path_eq(#[trigger] input[m], input[i])
}

/// Some path of `r` is `==` to `x`.
#[verifier::opaque]
pub open spec fn represented(r: Seq<Seq<char>>, x: Seq<char>) -> bool {
    exists|j: int| 0 <= j < r.len() && path_eq(#[trigger] r[j], x)
}

/// `x` is the first path of its `==`-class in `input`.
#[verifier::opaque]
pub open spec fn first_occurrence(input: Seq<Seq<char>>, x: Seq<char>) -> bool {
    exists|i: int| first_of_class(input, i) && x == #[trigger] input[i]
}

/// `r` is `input` sorted by `Path`'s order with `==` duplicates removed, each class kept as its first
/// occurrence: strictly increasing, covering every input path, and made of first occurrences.
pub open spec fn is_sorted_unique_of(r: Seq<Seq<char>>, input: Seq<Seq<char>>) -> bool {
    &&& forall|i: int, j: int| 0 <= i < j < r.len() ==> path_le(#[trigger] r[i], #[trigger] r[j]) && !path_eq(r[i], r[j])
    &&& forall|k: int| 0 <= k < input.len() ==> represented(r, #[trigger] input[k])
    &&& forall|j: int| 0 <= j < r.len() ==> first_occurrence(input, #[trigger] r[j])
}

proof fn lemma_first_occurrence_extend(inp: Seq<Seq<char>>, x: Seq<char>, p: Seq<char>)
    requires
        first_occurrence(inp, x),
    ensures
        first_occurrence(inp.push(p), x),
{
    reveal(first_occurrence);
    let inp2 = inp.push(p);
    let i = choose|i: int| first_of_class(inp, i) && x == #[trigger] inp[i];
    assert(inp2[i] == inp[i]);
    assert forall|mm: int| 0 <= mm < i implies !path_eq(#[trigger] inp2[mm], inp2[i]) by {
        assert(inp2[mm] == inp[mm]);
    }
    assert(first_of_class(inp2, i));
}

proof fn lemma_represented_insert(rv: Seq<Seq<char>>, x: Seq<char>, pos: int, p: Seq<char>)
    requires
        represented(rv, x),
        0 <= pos <= rv.len(),
    ensures
        represented(rv.insert(pos, p), x),
{
    reveal(represented);
    let nrv = rv.insert(pos, p);
    let jj = choose|jj: int| 0 <= jj < rv.len() && path_eq(#[trigger] rv[jj], x);
    if jj < pos {
        assert(nrv[jj] == rv[jj]);
    } else {
        assert(nrv[jj + 1] == rv[jj]);
    }
}

proof fn lemma_represented_by(rv: Seq<Seq<char>>, j: int, x: Seq<char>)
    requires
        0 <= j < rv.len(),
        path_eq(rv[j], x),
    ensures
        represented(rv, x),
{
    reveal(represented);
}

/// A path `==` to none of `rv` is `==` to none of the inputs `rv` represents.
proof fn lemma_new_class(rv: Seq<Seq<char>>, inp: Seq<Seq<char>>, p: Seq<char>)
    requires
        forall|k: int| 0 <= k < inp.len() ==> represented(rv, #[trigger] inp[k]),
        forall|m: int| 0 <= m < rv.len() ==> !path_eq(#[trigger] rv[m], p),
    ensures
        forall|m: int| 0 <= m < inp.len() ==> !path_eq(#[trigger] inp[m], p),
{
    reveal(represented);
    assert forall|m: int| 0 <= m < inp.len() implies !path_eq(#[trigger] inp[m], p) by {
        if path_eq(inp[m], p) {
            assert(represented(rv, inp[m]));
            let w = choose|w: int| 0 <= w < rv.len() && path_eq(#[trigger] rv[w], inp[m]);
            lemma_path_eq_transitive(rv[w], inp[m], p);
        }
    }
}

proof fn lemma_represented_keeps(rv: Seq<Seq<char>>, inp: Seq<Seq<char>>, p: Seq<char>)
    requires
        is_sorted_unique_of(rv, inp),
        represented(rv, p),
    ensures
        is_sorted_unique_of(rv, inp.push(p)),
{
    let inp2 = inp.push(p);
    assert forall|q: int| 0 <= q < inp2.len() implies represented(rv, #[trigger] inp2[q]) by {
        if q < inp.len() {
            assert(inp2[q] == inp[q]);
        }
    }
    assert forall|jj: int| 0 <= jj < rv.len() implies first_occurrence(inp2, #[trigger] rv[jj]) by {
        lemma_first_occurrence_extend(inp, rv[jj], p);
    }
}

proof fn lemma_insert_keeps(rv: Seq<Seq<char>>, inp: Seq<Seq<char>>, p: Seq<char>, pos: int)
    requires
        is_sorted_unique_of(rv, inp),
        0 <= pos <= rv.len(),
        forall|m: int| 0 <= m < pos ==> path_le(#[trigger] rv[m], p),
        pos < rv.len() ==> !path_le(rv[pos], p),
        forall|m: int| 0 <= m < rv.len() ==> !path_eq(#[trigger] rv[m], p),
    ensures
        is_sorted_unique_of(rv.insert(pos, p), inp.push(p)),
{
    let nrv = rv.insert(pos, p);
    let inp2 = inp.push(p);
    let k = inp.len() as int;
    assert forall|i: int, jj: int| 0 <= i < jj < nrv.len() implies path_le(#[trigger] nrv[i], #[trigger] nrv[jj])
        && !path_eq(nrv[i], nrv[jj]) by {
        if i < pos && jj == pos {
            assert(nrv[i] == rv[i]);
        } else if i == pos && jj > pos {
            let q = rv[jj - 1];
            assert(nrv[jj] == q);
            lemma_path_le_total(rv[pos], p);
            if jj - 1 > pos {
                assert(path_le(rv[pos], q));
                lemma_path_le_transitive(p, rv[pos], q);
            }
            assert(!path_eq(q, p));
            if path_eq(p, q) {
                lemma_path_eq_symmetric(p, q);
            }
        } else if i < pos && jj > pos {
            assert(nrv[i] == rv[i] && nrv[jj] == rv[jj - 1]);
        } else if i > pos {
            assert(nrv[i] == rv[i - 1] && nrv[jj] == rv[jj - 1]);
        } else {
            assert(nrv[i] == rv[i] && nrv[jj] == rv[jj]);
        }
    }
    assert forall|q: int| 0 <= q < inp2.len() implies represented(nrv, #[trigger] inp2[q]) by {
        if q < inp.len() {
            assert(inp2[q] == inp[q]);
            lemma_represented_insert(rv, inp[q], pos, p);
        } else {
            assert(nrv[pos] == p);
            lemma_path_eq_reflexive(p);
            lemma_represented_by(nrv, pos, p);
        }
    }
    lemma_new_class(rv, inp, p);
    assert forall|jj: int| 0 <= jj < nrv.len() implies first_occurrence(inp2, #[trigger] nrv[jj]) by {
        if jj == pos {
            assert forall|m: int| 0 <= m < k implies !path_eq(#[trigger] inp2[m], inp2[k]) by {
                assert(inp2[m] == inp[m]);
            }
            assert(first_of_class(inp2, k));
            assert(nrv[jj] == inp2[k]);
            reveal(first_occurrence);
        } else {
            let o = if jj < pos { jj } else { jj - 1 };
            assert(nrv[jj] == rv[o]);
            lemma_first_occurrence_extend(inp, rv[o], p);
        }
    }
}

/// `paths` sorted by `Path`'s ordering, then with consecutive `==` paths reduced to the first, as
/// `sort` followed by `dedup` leaves a list of paths.
pub fn sorted_unique_paths(paths: &Vec<String>) -> (r: Vec<String>)
    ensures
        is_sorted_unique_of(r@.map_values(|p: String| p@), paths@.map_values(|p: String| p@)),
{
    let ghost input = paths@.map_values(|p: String| p@);
    let mut r: Vec<String> = Vec::new();
    let mut keys: Vec<Vec<(u8, Vec<char>)>> = Vec::new();
    let mut texts: Vec<Vec<char>> = Vec::new();
    let mut k: usize = 0;
    assert(input.take(0) =~= Seq::<Seq<char>>::empty());
    assert(r@.map_values(|p: String| p@) =~= Seq::<Seq<char>>::empty());
    while k < paths.len()
        invariant
            input == paths@.map_values(|p: String| p@),
            k <= paths.len(),
            r@.len() == keys@.len(),
            r@.len() == texts@.len(),
            forall|j: int| 0 <= j < r@.len() ==> (#[trigger] texts@[j])@ == r@[j]@,
            forall|j: int| 0 <= j < r@.len() ==> keys_view((#[trigger] keys@[j])@) == path_key(r@[j]@),
            is_sorted_unique_of(r@.map_values(|p: String| p@), input.take(k as int)),
        decreases paths.len() - k,
    {
        let text = chars_of(paths[k].as_str());
        let key = path_key_exec(&text);
        let ghost p = text@;
        assert(p == input[k as int]);
        let ghost rv = r@.map_values(|q: String| q@);
        let ghost inp = input.take(k as int);
        assert(input.take(k + 1) =~= inp.push(p));
        // Is the path already represented?
        let mut j: usize = 0;
        let mut found = false;
        while j < r.len()
            invariant
                r@.len() == texts@.len(),
                forall|m: int| 0 <= m < r@.len() ==> (#[trigger] texts@[m])@ == r@[m]@,
                rv == r@.map_values(|q: String| q@),
                rv.len() == r@.len(),
                text@ == p,
                j <= r@.len(),
                found ==> exists|m: int| 0 <= m < rv.len() && path_eq(#[trigger] rv[m], p),
                !found ==> forall|m: int| 0 <= m < j ==> !path_eq(#[trigger] rv[m], p),
            decreases r@.len() - j,
        {
            assert(rv[j as int] == r@[j as int]@);
            assert(texts@[j as int]@ == r@[j as int]@);
            let same = same_path_exec(&texts[j], &text);
            proof {
                reveal(path_eq);
            }
            if same {
                assert(path_eq(rv[j as int], p));
                found = true;
            }
            j = j + 1;
        }
        if found {
            proof {
                let m = choose|m: int| 0 <= m < rv.len() && path_eq(#[trigger] rv[m], p);
                lemma_represented_by(rv, m, p);
                lemma_represented_keeps(rv, inp, p);
            }
        } else {
            // Insert after every element that orders before it.
            let mut pos: usize = 0;
            while pos < r.len() && keys_le_exec(&keys[pos], &key)
                invariant
                    r@.len() == keys@.len(),
                    forall|m: int| 0 <= m < r@.len() ==> keys_view((#[trigger] keys@[m])@) == path_key(r@[m]@),
                    keys_view(key@) == path_key(p),
                    pos <= r@.len(),
                    rv == r@.map_values(|q: String| q@),
                    rv.len() == r@.len(),
                    forall|m: int| 0 <= m < pos ==> path_le(#[trigger] rv[m], p),
                decreases r@.len() - pos,
            {
                assert(rv[pos as int] == r@[pos as int]@);
                proof {
                    reveal(path_le);
                }
                pos = pos + 1;
            }
            proof {
                if pos < r@.len() {
                    assert(rv[pos as int] == r@[pos as int]@);
                    reveal(path_le);
                }
                lemma_insert_keeps(rv, inp, p, pos as int);
            }
            let s = paths[k].clone();
            assert(s@ == p);
            let ghost old_texts = texts@;
            let ghost old_keys = keys@;
            let ghost old_r = r@;
            r.insert(pos, s);
            keys.insert(pos, key);
            texts.insert(pos, text);
            proof {
                assert(r@.map_values(|q: String| q@) =~= rv.insert(pos as int, p));
                assert forall|m: int| 0 <= m < r@.len() implies (#[trigger] texts@[m])@ == r@[m]@ by {
                    if m < pos {
                        assert(texts@[m] == old_texts[m] && r@[m] == old_r[m]);
                    } else if m > pos {
                        assert(texts@[m] == old_texts[m - 1] && r@[m] == old_r[m - 1]);
                    }
                }
                assert forall|m: int| 0 <= m < r@.len() implies keys_view((#[trigger] keys@[m])@) == path_key(r@[m]@) by {
                    if m < pos {
                        assert(keys@[m] == old_keys[m] && r@[m] == old_r[m]);
                    } else if m > pos {
                        assert(keys@[m] == old_keys[m - 1] && r@[m] == old_r[m - 1]);
                    }
                }
            }
        }
        k = k + 1;
    }
    assert(input.take(paths.len() as int) =~= input);
    r
}

} // verus!
