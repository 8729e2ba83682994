use vstd::prelude::*;
use vstd::set_lib::{lemma_int_range, lemma_map_size, set_int_range};

verus! {

/// The byte strings held by a list of names.
pub open spec fn views(s: Seq<Vec<u8>>) -> Seq<Seq<u8>> {
    s.map_values(|v: Vec<u8>| v@)
}

/// Decimal rendering of `n`, most significant digit first, without leading zeros.
pub open spec fn decimal(n: nat) -> Seq<u8>
    decreases n,
{
    if n < 10 {
        seq![(48 + n) as u8]
    } else {
        decimal(n / 10).push((48 + n % 10) as u8)
    }
}

/// The name that `base` takes with the suffix " (n)".
pub open spec fn suffixed(base: Seq<u8>, n: nat) -> Seq<u8> {
    base + seq![32u8, 40u8] + decimal(n) + seq![41u8]
}

/// `n` is the first suffix number, counting from 2, whose suffixed name is not taken.
pub open spec fn first_free(base: Seq<u8>, taken: Seq<Seq<u8>>, n: nat) -> bool {
    &&& n >= 2
    &&& !taken.contains(suffixed(base, n))
    &&& forall|k: nat| 2 <= k < n ==> taken.contains(#[trigger] suffixed(base, k))
}

/// The name under which an item called `base` is written when `taken` lists the
/// names already in use: `base` itself where it is free, else the first free
/// suffixed name.
pub open spec fn keep_both_of(base: Seq<u8>, taken: Seq<Seq<u8>>, r: Seq<u8>) -> bool {
    if !taken.contains(base) {
        r == base
    } else {
        exists|n: nat| first_free(base, taken, n) && r == suffixed(base, n)
    }
}

/// The names that a batch `names` gets in a directory holding `existing`: each
/// in turn, against the entries and the names given before it.
pub open spec fn batch_names_of(names: Seq<Seq<u8>>, existing: Seq<Seq<u8>>, r: Seq<Seq<u8>>) -> bool {
    &&& r.len() == names.len()
    &&& forall|i: int|
        0 <= i < names.len() ==> #[trigger] keep_both_of(
            names[i],
            existing + r.subrange(0, i),
            r[i],
        )
}

proof fn lemma_decimal_len(n: nat)
    ensures
        decimal(n).len() >= 1,
        n >= 10 ==> decimal(n).len() >= 2,
    decreases n,
{
    if n >= 10 {
        lemma_decimal_len(n / 10);
    }
}

proof fn lemma_decimal_injective(n: nat, m: nat)
    requires
        decimal(n) == decimal(m),
    ensures
        n == m,
    decreases n,
{
    lemma_decimal_len(n);
    lemma_decimal_len(m);
    if n < 10 && m < 10 {
        assert(decimal(n) == seq![(48 + n) as u8]);
        assert(decimal(m) == seq![(48 + m) as u8]);
        assert(decimal(n)[0] == (48 + n) as u8);
        assert(decimal(m)[0] == (48 + m) as u8);
    } else if n >= 10 && m >= 10 {
        let dn = decimal(n);
        let dm = decimal(m);
        assert(dn[dn.len() - 1] == dm[dm.len() - 1]);
        assert(dn.drop_last() =~= decimal(n / 10));
        assert(dm.drop_last() =~= decimal(m / 10));
        assert((48 + n % 10) as u8 == (48 + m % 10) as u8);
        assert(n % 10 == m % 10);
        lemma_decimal_injective(n / 10, m / 10);
        assert(n == 10 * (n / 10) + n % 10);
        assert(m == 10 * (m / 10) + m % 10);
    }
}

proof fn lemma_suffixed_injective(base: Seq<u8>, n: nat, m: nat)
    requires
        suffixed(base, n) == suffixed(base, m),
    ensures
        n == m,
{
    let a = suffixed(base, n);
    let b = suffixed(base, m);
    let lo = base.len() + 2;
    assert(a.subrange(lo as int, a.len() - 1) =~= decimal(n));
    assert(b.subrange(lo as int, b.len() - 1) =~= decimal(m));
    lemma_decimal_injective(n, m);
}

/// If the suffixed names for 2 up to `n` are all taken, `taken` holds at least
/// `n - 2` entries.
proof fn lemma_taken_bound(base: Seq<u8>, taken: Seq<Seq<u8>>, n: nat)
    requires
        n >= 2,
        forall|k: nat| 2 <= k < n ==> taken.contains(#[trigger] suffixed(base, k)),
    ensures
        n - 2 <= taken.len(),
{
    let f = |k: int| suffixed(base, k as nat);
    let xs = set_int_range(2, n as int);
    lemma_int_range(2, n as int);
    assert(vstd::relations::injective_on(f, xs)) by {
        assert forall|a: int, b: int| xs.contains(a) && xs.contains(b) && #[trigger] f(a) == #[trigger] f(b) implies a == b by {
            lemma_suffixed_injective(base, a as nat, b as nat);
        }
    }
    let ys = xs.map(f);
    lemma_map_size(xs, ys, f);
    assert(ys.subset_of(taken.to_set())) by {
        assert forall|y: Seq<u8>| ys.contains(y) implies taken.to_set().contains(y) by {
            let k = choose|k: int| xs.contains(k) && f(k) == y;
            assert(taken.contains(suffixed(base, k as nat)));
        }
    }
    taken.lemma_cardinality_of_set();
    vstd::set_lib::lemma_len_subset(ys, taken.to_set());
}

/// Copies a byte string.
pub fn copy_bytes(src: &Vec<u8>) -> (r: Vec<u8>)
    ensures
        r@ == src@,
{
    let mut r: Vec<u8> = Vec::new();
    let mut i: usize = 0;
    while i < src.len()
        invariant
            i <= src.len(),
            r@ == src@.subrange(0, i as int),
        decreases src.len() - i,
    {
        r.push(src[i]);
        i += 1;
    }
    assert(r@ =~= src@);
    r
}

/// Tells whether two byte strings are equal.
pub fn same_bytes(a: &Vec<u8>, b: &Vec<u8>) -> (r: bool)
    ensures
        r == (a@ == b@),
{
    if a.len() != b.len() {
        return false;
    }
    let mut i: usize = 0;
    while i < a.len()
        invariant
            a.len() == b.len(),
            i <= a.len(),
            a@.subrange(0, i as int) == b@.subrange(0, i as int),
        decreases a.len() - i,
    {
        if a[i] != b[i] {
            assert(a@[i as int] != b@[i as int]);
            return false;
        }
        assert(a@.subrange(0, i + 1) =~= a@.subrange(0, i as int).push(a@[i as int]));
        assert(b@.subrange(0, i + 1) =~= b@.subrange(0, i as int).push(b@[i as int]));
        i += 1;
    }
    assert(a@ =~= a@.subrange(0, a.len() as int));
    assert(b@ =~= b@.subrange(0, b.len() as int));
    true
}

/// Tells whether `name` is among `list`.
pub fn contains_name(list: &Vec<Vec<u8>>, name: &Vec<u8>) -> (r: bool)
    ensures
        r == views(list@).contains(name@),
{
    let mut i: usize = 0;
    while i < list.len()
        invariant
            i <= list.len(),
            forall|j: int| 0 <= j < i ==> list@[j]@ != name@,
        decreases list.len() - i,
    {
        if same_bytes(&list[i], name) {
            assert(views(list@)[i as int] == name@);
            return true;
        }
        i += 1;
    }
    assert forall|j: int| 0 <= j < views(list@).len() implies views(list@)[j] != name@ by {
        assert(views(list@)[j] == list@[j]@);
    }
    false
}

/// Appends the decimal digits of `n` to `out`.
pub fn push_decimal(out: &mut Vec<u8>, n: usize)
    ensures
        final(out)@ == old(out)@ + decimal(n as nat),
    decreases n,
{
    if n >= 10 {
        push_decimal(out, n / 10);
    }
    let d: u8 = (n % 10) as u8;
    out.push(48u8 + d);
    if n >= 10 {
        assert(decimal(n as nat) == decimal((n / 10) as nat).push((48 + n % 10) as u8));
    }
    assert(final(out)@ =~= old(out)@ + decimal(n as nat));
}

/// The name `base` with the suffix " (n)".
pub fn suffixed_name(base: &Vec<u8>, n: usize) -> (r: Vec<u8>)
    ensures
        r@ == suffixed(base@, n as nat),
{
    let mut r = copy_bytes(base);
    r.push(32u8);
    r.push(40u8);
    push_decimal(&mut r, n);
    r.push(41u8);
    assert(r@ =~= suffixed(base@, n as nat));
    r
}

/// The name for an item called `base` that collides with nothing in `taken`:
/// `base` where it is free, else `base (n)` with the least free `n` from 2 on.
/// The same `base` and `taken` always give the same name.
pub fn keep_both_name(base: &Vec<u8>, taken: &Vec<Vec<u8>>) -> (r: Vec<u8>)
    requires
        taken@.len() + 3 <= usize::MAX,
    ensures
        keep_both_of(base@, views(taken@), r@),
        !views(taken@).contains(r@),
{
    if !contains_name(taken, base) {
        return copy_bytes(base);
    }
    let ghost t = views(taken@);
    assert(t.len() == taken@.len());
    let mut n: usize = 2;
    loop
        invariant
            2 <= n <= taken@.len() + 2,
            t == views(taken@),
            t.contains(base@),
            t.len() == taken@.len(),
            taken@.len() + 3 <= usize::MAX,
            forall|k: nat| 2 <= k < n ==> t.contains(#[trigger] suffixed(base@, k)),
        decreases taken@.len() + 2 - n,
    {
        let c = suffixed_name(base, n);
        if !contains_name(taken, &c) {
            assert(first_free(base@, t, n as nat));
            assert(keep_both_of(base@, t, c@));
            return c;
        }
        assert forall|k: nat| 2 <= k < n + 1 implies t.contains(#[trigger] suffixed(base@, k)) by {
            if k == n {
            }
        }
        proof {
            lemma_taken_bound(base@, t, (n + 1) as nat);
        }
        n += 1;
    }
}

/// Copies a list of names.
pub fn copy_names(src: &Vec<Vec<u8>>) -> (r: Vec<Vec<u8>>)
    ensures
        views(r@) == views(src@),
{
    let mut r: Vec<Vec<u8>> = Vec::new();
    let mut i: usize = 0;
    while i < src.len()
        invariant
            i <= src.len(),
            views(r@) == views(src@).subrange(0, i as int),
        decreases src.len() - i,
    {
        let c = copy_bytes(&src[i]);
        let ghost before = r@;
        r.push(c);
        assert(r@ == before.push(c));
        assert(views(r@) =~= views(before).push(src@[i as int]@));
        assert(views(r@) =~= views(src@).subrange(0, i + 1));
        i += 1;
    }
    assert(views(r@) =~= views(src@));
    r
}

/// The names under which the items `names` are written, one after another, into
/// a directory that holds `existing`: each item keeps its name where that is
/// free of the entries and of the names given earlier in the batch, and else
/// takes the first free suffixed name.
pub fn keep_both_batch(names: &Vec<Vec<u8>>, existing: &Vec<Vec<u8>>) -> (r: Vec<Vec<u8>>)
    requires
        existing@.len() + names@.len() + 3 <= usize::MAX,
    ensures
        batch_names_of(views(names@), views(existing@), views(r@)),
{
    let mut taken = copy_names(existing);
    let mut r: Vec<Vec<u8>> = Vec::new();
    let mut i: usize = 0;
    while i < names.len()
        invariant
            i <= names.len(),
            existing@.len() + names@.len() + 3 <= usize::MAX,
            r@.len() == i,
            views(taken@) == views(existing@) + views(r@),
            forall|j: int|
                0 <= j < i ==> #[trigger] keep_both_of(
                    views(names@)[j],
                    views(existing@) + views(r@).subrange(0, j),
                    views(r@)[j],
                ),
        decreases names.len() - i,
    {
        assert(views(taken@).len() == taken@.len());
        let given = keep_both_name(&names[i], &taken);
        let ghost before = views(r@);
        let ghost old_r = r@;
        let ghost old_taken = taken@;
        let ghost g = given@;
        let copied = copy_bytes(&given);
        taken.push(copied);
        r.push(given);
        assert(r@ == old_r.push(given));
        assert(taken@ == old_taken.push(copied));
        assert(views(r@) =~= before.push(g));
        assert(views(taken@) =~= views(old_taken).push(g));
        assert(views(taken@) =~= views(existing@) + views(r@));
        assert forall|j: int|
            0 <= j < i + 1 implies #[trigger] keep_both_of(
                views(names@)[j],
                views(existing@) + views(r@).subrange(0, j),
                views(r@)[j],
            ) by {
            assert(views(r@).subrange(0, j) =~= before.subrange(0, j));
            if j == i {
                assert(before.subrange(0, j) =~= before);
                assert(views(names@)[j] == names@[j]@);
            }
        }
        i += 1;
    }
    r
}

/// A name chosen by `keep_both_of` is free in `taken`.
pub proof fn lemma_keep_both_free(base: Seq<u8>, taken: Seq<Seq<u8>>, r: Seq<u8>)
    requires
        keep_both_of(base, taken, r),
    ensures
        !taken.contains(r),
{
}

/// For one base and one set of taken names there is only one name that
/// `keep_both_of` allows: choosing a name is deterministic.
pub proof fn lemma_keep_both_unique(base: Seq<u8>, taken: Seq<Seq<u8>>, r1: Seq<u8>, r2: Seq<u8>)
    requires
        keep_both_of(base, taken, r1),
        keep_both_of(base, taken, r2),
    ensures
        r1 == r2,
{
    if taken.contains(base) {
        let n1 = choose|n: nat| first_free(base, taken, n) && r1 == suffixed(base, n);
        let n2 = choose|n: nat| first_free(base, taken, n) && r2 == suffixed(base, n);
        if n1 < n2 {
            assert(taken.contains(suffixed(base, n1)));
        } else if n2 < n1 {
            assert(taken.contains(suffixed(base, n2)));
        }
    }
}

/// Names given to a batch are pairwise distinct and none of them is among the
/// entries that the directory already held.
pub proof fn lemma_batch_collision_free(names: Seq<Seq<u8>>, existing: Seq<Seq<u8>>, r: Seq<Seq<u8>>)
    requires
        batch_names_of(names, existing, r),
    ensures
        r.no_duplicates(),
        forall|i: int| 0 <= i < r.len() ==> !existing.contains(#[trigger] r[i]),
{
    assert forall|i: int| 0 <= i < r.len() implies !existing.contains(#[trigger] r[i]) by {
        assert(keep_both_of(names[i], existing + r.subrange(0, i), r[i]));
        lemma_keep_both_free(names[i], existing + r.subrange(0, i), r[i]);
        if existing.contains(r[i]) {
            let k = choose|k: int| 0 <= k < existing.len() && existing[k] == r[i];
            assert((existing + r.subrange(0, i))[k] == r[i]);
        }
    }
    assert forall|i: int, j: int| 0 <= i < r.len() && 0 <= j < r.len() && i != j implies r[i] != r[j] by {
        let (a, b) = if i < j { (i, j) } else { (j, i) };
        assert(keep_both_of(names[b], existing + r.subrange(0, b), r[b]));
        lemma_keep_both_free(names[b], existing + r.subrange(0, b), r[b]);
        assert((existing + r.subrange(0, b))[existing.len() + a] == r[a]);
    }
}

proof fn lemma_batch_prefix(
    names: Seq<Seq<u8>>,
    existing: Seq<Seq<u8>>,
    r1: Seq<Seq<u8>>,
    r2: Seq<Seq<u8>>,
    i: int,
)
    requires
        batch_names_of(names, existing, r1),
        batch_names_of(names, existing, r2),
        0 <= i <= names.len(),
    ensures
        r1.subrange(0, i) == r2.subrange(0, i),
    decreases i,
{
    if i > 0 {
        let p = i - 1;
        lemma_batch_prefix(names, existing, r1, r2, p);
        assert(keep_both_of(names[p], existing + r1.subrange(0, p), r1[p]));
        assert(keep_both_of(names[p], existing + r2.subrange(0, p), r2[p]));
        lemma_keep_both_unique(names[p], existing + r1.subrange(0, p), r1[p], r2[p]);
        assert(r1.subrange(0, i) =~= r1.subrange(0, p).push(r1[p]));
        assert(r2.subrange(0, i) =~= r2.subrange(0, p).push(r2[p]));
    }
}

/// The names given to a batch depend on the batch and the directory's entries
/// alone: the same inputs always give the same names.
pub proof fn lemma_batch_deterministic(
    names: Seq<Seq<u8>>,
    existing: Seq<Seq<u8>>,
    r1: Seq<Seq<u8>>,
    r2: Seq<Seq<u8>>,
)
    requires
        batch_names_of(names, existing, r1),
        batch_names_of(names, existing, r2),
    ensures
        r1 == r2,
{
    lemma_batch_prefix(names, existing, r1, r2, names.len() as int);
    assert(r1 =~= r1.subrange(0, names.len() as int));
    assert(r2 =~= r2.subrange(0, names.len() as int));
}

} // verus!
