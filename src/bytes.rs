use vstd::prelude::*;

verus! {

/// Lexicographic comparison of two byte strings, the order of `[u8]`.
pub open spec fn bytes_cmp(a: Seq<u8>, b: Seq<u8>) -> core::cmp::Ordering
    decreases a.len(),
{
    if a.len() == 0 {
        if b.len() == 0 {
            core::cmp::Ordering::Equal
        } else {
            core::cmp::Ordering::Less
        }
    } else if b.len() == 0 {
        core::cmp::Ordering::Greater
    } else if a[0] < b[0] {
        core::cmp::Ordering::Less
    } else if a[0] > b[0] {
        core::cmp::Ordering::Greater
    } else {
        bytes_cmp(a.drop_first(), b.drop_first())
    }
}

/// Swapping the operands of a comparison turns it around.
pub proof fn lemma_bytes_cmp_flip(a: Seq<u8>, b: Seq<u8>)
    ensures
        (bytes_cmp(a, b) == core::cmp::Ordering::Less) == (bytes_cmp(b, a)
            == core::cmp::Ordering::Greater),
        (bytes_cmp(a, b) == core::cmp::Ordering::Equal) == (a == b),
    decreases a.len(),
{
    if a.len() > 0 && b.len() > 0 && a[0] == b[0] {
        lemma_bytes_cmp_flip(a.drop_first(), b.drop_first());
        if a.drop_first() == b.drop_first() {
            assert(a =~= seq![a[0]] + a.drop_first());
            assert(b =~= seq![b[0]] + b.drop_first());
        }
    } else if a.len() == 0 && b.len() == 0 {
        assert(a =~= b);
    }
}

/// "Not after" is transitive.
pub proof fn lemma_bytes_cmp_trans(a: Seq<u8>, b: Seq<u8>, c: Seq<u8>)
    requires
        bytes_cmp(a, b) != core::cmp::Ordering::Greater,
        bytes_cmp(b, c) != core::cmp::Ordering::Greater,
    ensures
        bytes_cmp(a, c) != core::cmp::Ordering::Greater,
    decreases a.len(),
{
    if a.len() > 0 && b.len() > 0 && c.len() > 0 && a[0] == b[0] && b[0] == c[0] {
        lemma_bytes_cmp_trans(a.drop_first(), b.drop_first(), c.drop_first());
    }
}

/// Position of the first `b` in `s`, or the length of `s` where there is none.
pub open spec fn index_of(s: Seq<u8>, b: u8) -> nat
    decreases s.len(),
{
    if s.len() == 0 {
        0
    } else if s[0] == b {
        0
    } else {
        1 + index_of(s.drop_first(), b)
    }
}

pub proof fn lemma_index_of(s: Seq<u8>, b: u8, k: int)
    requires
        0 <= k <= s.len(),
        forall|i: int| 0 <= i < k ==> s[i] != b,
        k == s.len() || s[k] == b,
    ensures
        index_of(s, b) == k,
    decreases k,
{
    if k > 0 {
        lemma_index_of(s.drop_first(), b, k - 1);
    }
}

/// Position of the first byte of `s` other than `b`, or the length of `s`
/// where there is none.
pub open spec fn index_not(s: Seq<u8>, b: u8) -> nat
    decreases s.len(),
{
    if s.len() == 0 {
        0
    } else if s[0] != b {
        0
    } else {
        1 + index_not(s.drop_first(), b)
    }
}

pub proof fn lemma_index_not(s: Seq<u8>, b: u8, k: int)
    requires
        0 <= k <= s.len(),
        forall|i: int| 0 <= i < k ==> s[i] == b,
        k == s.len() || s[k] != b,
    ensures
        index_not(s, b) == k,
    decreases k,
{
    if k > 0 {
        lemma_index_not(s.drop_first(), b, k - 1);
    }
}

/// Position of the first two NUL bytes in a row in `s`, or the length of
/// `s` where there are none.
pub open spec fn index_of_nulnul(s: Seq<u8>) -> nat
    decreases s.len(),
{
    if s.len() < 2 {
        s.len()
    } else if s[0] == 0 && s[1] == 0 {
        0
    } else {
        1 + index_of_nulnul(s.drop_first())
    }
}

pub proof fn lemma_index_of_nulnul(s: Seq<u8>, k: int)
    requires
        0 <= k <= s.len(),
        forall|i: int| 0 <= i < k && i + 1 < s.len() ==> !(#[trigger] s[i] == 0 && s[i + 1] == 0),
        (k + 1 < s.len() && s[k] == 0 && s[k + 1] == 0) || k == s.len() || (k + 1 == s.len()),
    ensures
        (k + 1 < s.len() ==> index_of_nulnul(s) == k),
        (k + 1 >= s.len() ==> index_of_nulnul(s) == s.len()),
    decreases k,
{
    if k > 0 && s.len() >= 2 {
        lemma_index_of_nulnul(s.drop_first(), k - 1);
    }
}

pub proof fn lemma_index_of_nulnul_bound(s: Seq<u8>)
    ensures
        index_of_nulnul(s) <= s.len(),
        index_of_nulnul(s) + 1 < s.len() ==> s[index_of_nulnul(s) as int] == 0 && s[index_of_nulnul(s) + 1int] == 0,
    decreases s.len(),
{
    if s.len() >= 2 && !(s[0] == 0 && s[1] == 0) {
        lemma_index_of_nulnul_bound(s.drop_first());
    }
}

/// Position of the first `b` in `s` at or after `from`, or the length of `s`.
pub fn find_byte(s: &[u8], from: usize, b: u8) -> (r: usize)
    requires
        from <= s@.len(),
    ensures
        r == from + index_of(s@.skip(from as int), b),
        r <= s@.len(),
{
    let mut i: usize = from;
    while i < s.len() && s[i] != b
        invariant
            from <= i <= s@.len(),
            forall|k: int| from <= k < i ==> s@[k] != b,
        decreases s@.len() - i,
    {
        i += 1;
    }
    proof {
        lemma_index_of(s@.skip(from as int), b, i - from);
    }
    i
}

/// Position of the first byte other than `b` in `s` at or after `from`, or
/// the length of `s`.
pub fn find_not(s: &[u8], from: usize, b: u8) -> (r: usize)
    requires
        from <= s@.len(),
    ensures
        r == from + index_not(s@.skip(from as int), b),
        r <= s@.len(),
{
    let mut i: usize = from;
    while i < s.len() && s[i] == b
        invariant
            from <= i <= s@.len(),
            forall|k: int| from <= k < i ==> s@[k] == b,
        decreases s@.len() - i,
    {
        i += 1;
    }
    proof {
        lemma_index_not(s@.skip(from as int), b, i - from);
    }
    i
}

/// Position of the first two NUL bytes in a row in `s` at or after `from`,
/// or the length of `s`.
pub fn find_nulnul(s: &[u8], from: usize) -> (r: usize)
    requires
        from <= s@.len(),
    ensures
        r == from + index_of_nulnul(s@.skip(from as int)),
        r == s@.len() || r + 1 < s@.len(),
{
    let mut i: usize = from;
    while i < s.len() && i + 1 < s.len() && !(s[i] == 0 && s[i + 1] == 0)
        invariant
            from <= i <= s@.len(),
            forall|k: int| from <= k < i && k + 1 < s@.len() ==> !(#[trigger] s@[k] == 0 && s@[k + 1] == 0),
        decreases s@.len() - i,
    {
        i += 1;
    }
    proof {
        lemma_index_of_nulnul(s@.skip(from as int), i - from);
    }
    if i < s.len() && i + 1 < s.len() {
        i
    } else {
        s.len()
    }
}

/// Copies `s[from..to]` into a new vector.
pub fn copy_range(s: &[u8], from: usize, to: usize) -> (r: Vec<u8>)
    requires
        from <= to <= s@.len(),
    ensures
        r@ == s@.subrange(from as int, to as int),
{
    let mut r: Vec<u8> = Vec::with_capacity(to - from);
    let mut i: usize = from;
    while i < to
        invariant
            from <= i <= to <= s@.len(),
            r@ == s@.subrange(from as int, i as int),
        decreases to - i,
    {
        r.push(s[i]);
        i += 1;
        assert(r@ =~= s@.subrange(from as int, i as int));
    }
    r
}

/// Whether two byte strings are equal.
pub fn bytes_eq(a: &[u8], b: &[u8]) -> (r: bool)
    ensures
        r == (a@ == b@),
{
    if a.len() != b.len() {
        return false;
    }
    let mut i: usize = 0;
    while i < a.len()
        invariant
            a@.len() == b@.len(),
            i <= a@.len(),
            forall|j: int| 0 <= j < i ==> a@[j] == b@[j],
        decreases a@.len() - i,
    {
        if a[i] != b[i] {
            return false;
        }
        i += 1;
    }
    assert(a@ =~= b@);
    true
}

/// Compares two byte strings lexicographically.
pub fn compare_bytes(a: &[u8], b: &[u8]) -> (r: core::cmp::Ordering)
    ensures
        r == bytes_cmp(a@, b@),
{
    let mut i: usize = 0;
    assert(a@.skip(0) =~= a@);
    assert(b@.skip(0) =~= b@);
    while i < a.len() && i < b.len() && a[i] == b[i]
        invariant
            i <= a@.len(),
            i <= b@.len(),
            bytes_cmp(a@, b@) == bytes_cmp(a@.skip(i as int), b@.skip(i as int)),
        decreases a@.len() - i,
    {
        assert(a@.skip(i as int).drop_first() =~= a@.skip(i + 1));
        assert(b@.skip(i as int).drop_first() =~= b@.skip(i + 1));
        i += 1;
    }
    if i == a.len() {
        if i == b.len() {
            core::cmp::Ordering::Equal
        } else {
            core::cmp::Ordering::Less
        }
    } else if i == b.len() {
        core::cmp::Ordering::Greater
    } else if a[i] < b[i] {
        core::cmp::Ordering::Less
    } else {
        core::cmp::Ordering::Greater
    }
}

} // verus!
