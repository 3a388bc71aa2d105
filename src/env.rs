use vstd::prelude::*;
use vstd::utf8::encode_utf8;
use vstd::std_specs::iter::IteratorSpec;
use crate::args::KeyOrder;
use crate::bytes::{
    bytes_cmp, bytes_eq, compare_bytes, copy_range, index_of, lemma_bytes_cmp_flip,
    lemma_bytes_cmp_trans, lemma_index_of,
};

verus! {

/// The byte that parts a key from its value.
pub const EQUALS_SIGN: u8 = 0x3d;

/// One environment record: the key bytes and the value bytes.
///
/// Records compare by key alone: the value is never looked at.
#[derive(Eq, Debug)]
pub struct RecordPair(pub Vec<u8>, pub Vec<u8>);

impl View for RecordPair {
    type V = (Seq<u8>, Seq<u8>);

    open spec fn view(&self) -> (Seq<u8>, Seq<u8>) {
        (self.0@, self.1@)
    }
}

impl PartialEq for RecordPair {
    fn eq(&self, other: &RecordPair) -> (r: bool) {
        bytes_eq(self.0.as_slice(), other.0.as_slice())
    }
}

impl vstd::std_specs::cmp::PartialEqSpecImpl for RecordPair {
    open spec fn obeys_eq_spec() -> bool {
        true
    }

    open spec fn eq_spec(&self, other: &RecordPair) -> bool {
        self.0@ == other.0@
    }
}

impl PartialOrd for RecordPair {
    fn partial_cmp(&self, other: &RecordPair) -> (r: Option<core::cmp::Ordering>) {
        Some(compare_bytes(self.0.as_slice(), other.0.as_slice()))
    }
}

impl vstd::std_specs::cmp::PartialOrdSpecImpl for RecordPair {
    open spec fn obeys_partial_cmp_spec() -> bool {
        true
    }

    open spec fn partial_cmp_spec(&self, other: &RecordPair) -> Option<core::cmp::Ordering> {
        Some(bytes_cmp(self.0@, other.0@))
    }
}

/// An environment: records in the order they were read or arranged in.
/// Keys need not be unique.
#[derive(Debug, PartialEq, Eq)]
pub struct Env(pub Vec<RecordPair>);

/// The records of `s` as pairs of byte strings.
pub open spec fn views(s: Seq<RecordPair>) -> Seq<(Seq<u8>, Seq<u8>)> {
    s.map_values(|r: RecordPair| r@)
}

impl View for Env {
    type V = Seq<(Seq<u8>, Seq<u8>)>;

    open spec fn view(&self) -> Seq<(Seq<u8>, Seq<u8>)> {
        views(self.0@)
    }
}

/// The record that one NUL-free segment stands for: split at its first `=`,
/// or none where it has no `=`.
pub open spec fn record_of(seg: Seq<u8>) -> Option<(Seq<u8>, Seq<u8>)> {
    let j = index_of(seg, EQUALS_SIGN) as int;
    if j < seg.len() {
        Some((seg.take(j), seg.skip(j + 1)))
    } else {
        None
    }
}

/// The records of a raw environment block: the block is cut at each NUL,
/// and each piece that holds a `=` gives one record, in order.
pub open spec fn parse_block(raw: Seq<u8>) -> Seq<(Seq<u8>, Seq<u8>)>
    decreases raw.len(),
{
    if raw.len() == 0 {
        seq![]
    } else {
        let i = index_of(raw, 0) as int;
        let head = match record_of(raw.take(i)) {
            Some(p) => seq![p],
            None => seq![],
        };
        if i < raw.len() {
            head + parse_block(raw.skip(i + 1))
        } else {
            head
        }
    }
}

/// The block that lists the records of `e` as `KEY=VALUE` and a NUL each.
pub open spec fn block_of(e: Seq<(Seq<u8>, Seq<u8>)>) -> Seq<u8>
    decreases e.len(),
{
    if e.len() == 0 {
        seq![]
    } else {
        e[0].0 + seq![EQUALS_SIGN] + e[0].1 + seq![0u8] + block_of(e.drop_first())
    }
}

/// Whether `key` is the UTF-8 form of one of `keys`.
pub open spec fn key_listed(keys: Seq<String>, key: Seq<u8>) -> bool {
    exists|i: int| 0 <= i < keys.len() && encode_utf8(keys[i]@) == key
}

/// The test that keeps a record whose key is listed in `keys`.
pub open spec fn listed_in(keys: Seq<String>) -> spec_fn((Seq<u8>, Seq<u8>)) -> bool {
    |p: (Seq<u8>, Seq<u8>)| key_listed(keys, p.0)
}

/// Whether, in `order`, a record keyed `a` goes strictly before one keyed `b`.
pub open spec fn key_before(a: Seq<u8>, b: Seq<u8>, order: KeyOrder) -> bool {
    match order {
        KeyOrder::Unordered => false,
        KeyOrder::Asc => bytes_cmp(a, b) == core::cmp::Ordering::Less,
        KeyOrder::Desc => bytes_cmp(a, b) == core::cmp::Ordering::Greater,
    }
}

/// `s` with `x` put after every record that `x` does not go before.
pub open spec fn insert_sorted(
    s: Seq<(Seq<u8>, Seq<u8>)>,
    x: (Seq<u8>, Seq<u8>),
    order: KeyOrder,
) -> Seq<(Seq<u8>, Seq<u8>)>
    decreases s.len(),
{
    if s.len() > 0 && key_before(x.0, s.last().0, order) {
        insert_sorted(s.drop_last(), x, order).push(s.last())
    } else {
        s.push(x)
    }
}

/// The stable sort of `s` by key in `order`: records with equal keys keep
/// their relative order.
pub open spec fn sort_records(s: Seq<(Seq<u8>, Seq<u8>)>, order: KeyOrder) -> Seq<
    (Seq<u8>, Seq<u8>),
>
    decreases s.len(),
{
    if s.len() == 0 {
        s
    } else {
        insert_sorted(sort_records(s.drop_last(), order), s.last(), order)
    }
}

/// Whether no record of `s` goes strictly before an earlier one.
pub open spec fn is_sorted(s: Seq<(Seq<u8>, Seq<u8>)>, order: KeyOrder) -> bool {
    forall|i: int, j: int| 0 <= i < j < s.len() ==> !key_before(s[j].0, s[i].0, order)
}

/// Splits one record at its first `=`; a record without `=` gives nothing.
pub fn parse_record_pair(record: &[u8]) -> (r: Option<RecordPair>)
    ensures
        match r {
            Some(p) => record_of(record@) == Some(p@),
            None => record_of(record@) is None,
        },
{
    let mut j: usize = 0;
    while j < record.len() && record[j] != EQUALS_SIGN
        invariant
            j <= record@.len(),
            forall|i: int| 0 <= i < j ==> record@[i] != EQUALS_SIGN,
        decreases record@.len() - j,
    {
        j += 1;
    }
    proof {
        lemma_index_of(record@, EQUALS_SIGN, j as int);
    }
    if j < record.len() {
        let key = copy_range(record, 0, j);
        let value = copy_range(record, j + 1, record.len());
        Some(RecordPair(key, value))
    } else {
        None
    }
}

impl From<Vec<u8>> for Env {
    fn from(raw: Vec<u8>) -> (r: Env)
        ensures
            r@ == parse_block(raw@),
    {
        Env::parse(raw.as_slice())
    }
}

impl vstd::std_specs::convert::FromSpecImpl<Vec<u8>> for Env {
    open spec fn obeys_from_spec() -> bool {
        false
    }

    open spec fn from_spec(raw: Vec<u8>) -> Env {
        arbitrary()
    }
}

impl Env {
    /// Reads the records of a raw environment block.
    pub fn parse(raw: &[u8]) -> (r: Env)
        ensures
            r@ == parse_block(raw@),
    {
        let mut out: Vec<RecordPair> = Vec::new();
        let mut start: usize = 0;
        assert(raw@.skip(0) =~= raw@);
        while start < raw.len()
            invariant
                start <= raw@.len(),
                parse_block(raw@) == views(out@) + parse_block(raw@.skip(start as int)),
            decreases raw@.len() - start,
        {
            let ghost rest = raw@.skip(start as int);
            let mut end: usize = start;
            while end < raw.len() && raw[end] != 0
                invariant
                    start <= end <= raw@.len(),
                    forall|i: int| start <= i < end ==> raw@[i] != 0,
                decreases raw@.len() - end,
            {
                end += 1;
            }
            proof {
                lemma_index_of(rest, 0, end - start);
                assert(rest.take(end - start) =~= raw@.subrange(start as int, end as int));
            }
            let segment = copy_range(raw, start, end);
            let parsed = parse_record_pair(segment.as_slice());
            let ghost before = views(out@);
            match parsed {
                Some(p) => {
                    out.push(p);
                    assert(views(out@) =~= before + seq![p@]);
                },
                None => {},
            }
            if end < raw.len() {
                proof {
                    assert(rest.skip(end - start + 1) =~= raw@.skip(end + 1));
                }
                start = end + 1;
            } else {
                assert(parse_block(raw@.skip(raw@.len() as int)) =~= seq![]);
                start = end;
            }
            assert(parse_block(raw@) == views(out@) + parse_block(raw@.skip(start as int)));
        }
        assert(raw@.skip(start as int) =~= seq![]);
        assert(views(out@) + seq![] =~= views(out@));
        Env(out)
    }

    /// The records, front to back.
    pub fn iter(&self) -> (r: std::slice::Iter<'_, RecordPair>)
        ensures
            r.remaining() == self.0@.as_ref(),
    {
        self.0.as_slice().iter()
    }
}

impl Env {
    /// Keeps only the records whose key is the UTF-8 form of one of `keys`,
    /// in their order.
    pub fn filter_keys(&mut self, keys: &[String])
        ensures
            final(self)@ == old(self)@.filter(listed_in(keys@)),
    {
        let ghost pred = listed_in(keys@);
        let ghost orig = self@;
        let ghost mut j: int = 0;
        let mut i: usize = 0;
        assert(orig.take(0).filter(pred) =~= seq![]) by {
            reveal(Seq::filter);
        }
        assert(self@.take(0) =~= seq![]);
        assert(orig.skip(0) =~= orig);
        while i < self.0.len()
            invariant
                i <= self.0@.len(),
                0 <= j <= orig.len(),
                pred == listed_in(keys@),
                self.0@.len() - i == orig.len() - j,
                self@.take(i as int) == orig.take(j).filter(pred),
                self@.skip(i as int) == orig.skip(j),
            decreases self.0@.len() - i,
        {
            let ghost kept = self@.take(i as int);
            assert(orig[j] == self@[i as int]) by {
                assert(orig.skip(j)[0] == self@.skip(i as int)[0]);
            }
            assert(orig.take(j + 1).drop_last() =~= orig.take(j));
            assert(self@[i as int] == self.0@[i as int]@);
            let listed = is_listed(keys, self.0[i].0.as_slice());
            if listed {
                i += 1;
                assert(self@.take(i as int) =~= kept.push(orig[j]));
                assert(orig.take(j + 1).filter(pred) == orig.take(j).filter(pred).push(orig[j])) by {
                    reveal(Seq::filter);
                    assert(orig.take(j + 1).last() == orig[j]);
                    assert(key_listed(keys@, orig[j].0));
                    assert(pred(orig[j]) == key_listed(keys@, orig[j].0));
                    assert(orig.take(j + 1).drop_last() =~= orig.take(j));
                }
                proof {
                    lemma_skip_next(self@, orig, i - 1, j);
                }
            } else {
                let ghost before = self@;
                self.0.remove(i);
                assert(self@ =~= before.remove(i as int));
                assert(self@.take(i as int) =~= kept);
                assert(orig.take(j + 1).filter(pred) == orig.take(j).filter(pred)) by {
                    reveal(Seq::filter);
                    assert(orig.take(j + 1).last() == orig[j]);
                    assert(!key_listed(keys@, orig[j].0));
                    assert(pred(orig[j]) == key_listed(keys@, orig[j].0));
                    assert(orig.take(j + 1).drop_last() =~= orig.take(j));
                }
                proof {
                    lemma_skip_next(before, orig, i as int, j);
                }
                assert(self@.skip(i as int) =~= before.skip(i + 1));
            }
            proof {
                j = j + 1;
            }
        }
        assert(orig.skip(j).len() == 0);
        assert(j == orig.len());
        assert(orig.take(j) =~= orig);
        assert(self@.take(i as int) =~= self@);
    }

    /// Narrows to the listed variables where any are listed, then orders by
    /// key.
    pub fn arrange(&mut self, variables: &[String], key_order: KeyOrder)
        ensures
            final(self)@ == sort_records(
                if variables@.len() > 0 {
                    old(self)@.filter(listed_in(variables@))
                } else {
                    old(self)@
                },
                key_order,
            ),
    {
        if variables.len() > 0 {
            self.filter_keys(variables);
        }
        self.sort_by_key(key_order);
    }

    /// Orders the records by key, stably; `Unordered` leaves them as they are.
    pub fn sort_by_key(&mut self, key_order: KeyOrder)
        ensures
            final(self)@ == sort_records(old(self)@, key_order),
            is_sorted(final(self)@, key_order),
            final(self)@.to_multiset() == old(self)@.to_multiset(),
    {
        let ghost orig = self@;
        proof {
            lemma_sort_records(orig, key_order);
        }
        if key_order == KeyOrder::Unordered {
            proof {
                lemma_sort_unordered(orig);
            }
            return;
        }
        let n = self.0.len();
        let mut i: usize = 0;
        assert(orig.take(0) =~= seq![]);
        assert(self@.take(0) =~= seq![]);
        assert(orig.skip(0) =~= orig);
        while i < n
            invariant
                self.0@.len() == n == orig.len(),
                i <= n,
                self@.take(i as int) == sort_records(orig.take(i as int), key_order),
                self@.skip(i as int) == orig.skip(i as int),
            decreases n - i,
        {
            let ghost prefix = self@.take(i as int);
            let ghost before_remove = self@;
            let x = self.0.remove(i);
            assert(self@ =~= before_remove.remove(i as int));
            assert(x@ == orig[i as int]) by {
                assert(orig.skip(i as int)[0] == before_remove.skip(i as int)[0]);
            }
            assert(self@.take(i as int) =~= prefix);
            let mut j: usize = i;
            assert(prefix.take(i as int) =~= prefix);
            assert(prefix.subrange(i as int, i as int) =~= seq![]);
            while j > 0 && key_goes_before(x.0.as_slice(), self.0[j - 1].0.as_slice(), key_order)
                invariant
                    0 <= j <= i < n,
                    self.0@.len() == n - 1,
                    self@.take(i as int) == prefix,
                    insert_sorted(prefix, x@, key_order) == insert_sorted(
                        prefix.take(j as int),
                        x@,
                        key_order,
                    ) + prefix.subrange(j as int, i as int),
                decreases j,
            {
                assert(self@[j - 1] == prefix[j - 1]);
                assert(prefix.take(j as int).drop_last() =~= prefix.take(j - 1));
                assert(prefix.subrange(j - 1, i as int) =~= seq![prefix[j - 1]] + prefix.subrange(
                    j as int,
                    i as int,
                ));
                assert(insert_sorted(prefix.take(j as int), x@, key_order) == insert_sorted(
                    prefix.take(j - 1),
                    x@,
                    key_order,
                ).push(prefix[j - 1]));
                assert(insert_sorted(prefix, x@, key_order) =~= insert_sorted(
                    prefix.take(j - 1),
                    x@,
                    key_order,
                ) + prefix.subrange(j - 1, i as int));
                j -= 1;
            }
            proof {
                if j > 0 {
                    assert(self@[j - 1] == prefix[j - 1]);
                    assert(prefix.take(j as int).last() == prefix[j - 1]);
                }
                assert(insert_sorted(prefix.take(j as int), x@, key_order) == prefix.take(
                    j as int,
                ).push(x@));
            }
            assert(before_remove.skip(i + 1) =~= orig.skip(i + 1)) by {
                assert forall|k: int| 0 <= k < orig.len() - i - 1 implies #[trigger] before_remove.skip(i + 1)[k] == orig.skip(i + 1)[k] by {
                    assert(before_remove.skip(i as int)[k + 1] == orig.skip(i as int)[k + 1]);
                }
            }
            let ghost before_insert = self@;
            self.0.insert(j, x);
            assert(self@ =~= before_insert.insert(j as int, x@));
            assert(orig.take(i + 1).drop_last() =~= orig.take(i as int));
            assert(self@.take(i + 1) =~= insert_sorted(prefix, x@, key_order));
            assert(self@.skip(i + 1) =~= before_remove.skip(i + 1));
            i += 1;
        }
        assert(orig.take(n as int) =~= orig);
        assert(self@.take(n as int) =~= self@);
    }
}

/// Whether `key` is the UTF-8 form of one of `keys`.
fn is_listed(keys: &[String], key: &[u8]) -> (r: bool)
    ensures
        r == key_listed(keys@, key@),
{
    let mut k: usize = 0;
    while k < keys.len()
        invariant
            k <= keys@.len(),
            forall|i: int| 0 <= i < k ==> encode_utf8(keys@[i]@) != key@,
        decreases keys@.len() - k,
    {
        if bytes_eq(keys[k].as_str().as_bytes(), key) {
            return true;
        }
        k += 1;
    }
    false
}

/// Whether, in `order`, a record keyed `a` goes strictly before one keyed `b`.
fn key_goes_before(a: &[u8], b: &[u8], order: KeyOrder) -> (r: bool)
    ensures
        r == key_before(a@, b@, order),
{
    match order {
        KeyOrder::Unordered => false,
        KeyOrder::Asc => matches!(compare_bytes(a, b), core::cmp::Ordering::Less),
        KeyOrder::Desc => matches!(compare_bytes(a, b), core::cmp::Ordering::Greater),
    }
}

/// Whether no key or value of `e` holds a NUL or a `=`.
pub open spec fn plain_records(e: Seq<(Seq<u8>, Seq<u8>)>) -> bool {
    forall|i: int, k: int|
        0 <= i < e.len() ==> (0 <= k < e[i].0.len() ==> e[i].0[k] != 0u8 && e[i].0[k]
            != EQUALS_SIGN) && (0 <= k < e[i].1.len() ==> e[i].1[k] != 0u8 && e[i].1[k]
            != EQUALS_SIGN)
}

/// Writing records out as `KEY=VALUE` each ended by a NUL and reading the
/// block back gives the same records in the same order, where no key or
/// value holds a NUL or a `=`.
pub proof fn lemma_round_trip(e: Seq<(Seq<u8>, Seq<u8>)>)
    requires
        plain_records(e),
    ensures
        parse_block(block_of(e)) == e,
    decreases e.len(),
{
    if e.len() > 0 {
        let k = e[0].0;
        let v = e[0].1;
        let rest = block_of(e.drop_first());
        let raw = block_of(e);
        let seg = k + seq![EQUALS_SIGN] + v;
        let n = seg.len() as int;
        assert(raw =~= seg + seq![0u8] + rest);
        assert forall|i: int| 0 <= i < n implies raw[i] != 0u8 by {
            if i < k.len() {
                assert(raw[i] == k[i]);
            } else if i > k.len() {
                assert(raw[i] == v[i - k.len() - 1]);
            }
        }
        lemma_index_of(raw, 0u8, n);
        assert(raw.take(n) =~= seg);
        assert forall|i: int| 0 <= i < k.len() implies seg[i] != EQUALS_SIGN by {
            assert(seg[i] == k[i]);
        }
        lemma_index_of(seg, EQUALS_SIGN, k.len() as int);
        assert(seg.take(k.len() as int) =~= k);
        assert(seg.skip(k.len() as int + 1) =~= v);
        assert(raw.skip(n + 1) =~= rest);
        assert(plain_records(e.drop_first())) by {
            assert forall|i: int, j: int| 0 <= i < e.drop_first().len() implies (0 <= j
                < e.drop_first()[i].0.len() ==> e.drop_first()[i].0[j] != 0u8
                && e.drop_first()[i].0[j] != EQUALS_SIGN) && (0 <= j < e.drop_first()[i].1.len()
                ==> e.drop_first()[i].1[j] != 0u8 && e.drop_first()[i].1[j] != EQUALS_SIGN) by {
                assert(e.drop_first()[i] == e[i + 1]);
            }
        }
        lemma_round_trip(e.drop_first());
        assert(seq![e[0]] + e.drop_first() =~= e);
    } else {
        assert(block_of(e) =~= seq![]);
    }
}

proof fn lemma_not_before_trans(a: Seq<u8>, b: Seq<u8>, c: Seq<u8>, order: KeyOrder)
    requires
        !key_before(a, b, order),
        !key_before(b, c, order),
    ensures
        !key_before(a, c, order),
{
    lemma_bytes_cmp_flip(a, b);
    lemma_bytes_cmp_flip(b, c);
    lemma_bytes_cmp_flip(a, c);
    match order {
        KeyOrder::Unordered => {},
        KeyOrder::Asc => {
            lemma_bytes_cmp_trans(c, b, a);
        },
        KeyOrder::Desc => {
            lemma_bytes_cmp_trans(a, b, c);
        },
    }
}

/// Every record of `insert_sorted(s, x, order)` is one of `s` or `x`, so a
/// bound that holds of those holds of it.
proof fn lemma_insert_bound(
    s: Seq<(Seq<u8>, Seq<u8>)>,
    x: (Seq<u8>, Seq<u8>),
    y: Seq<u8>,
    order: KeyOrder,
)
    requires
        forall|i: int| 0 <= i < s.len() ==> !key_before(y, #[trigger] s[i].0, order),
        !key_before(y, x.0, order),
    ensures
        forall|i: int|
            0 <= i < insert_sorted(s, x, order).len() ==> !key_before(
                y,
                #[trigger] insert_sorted(s, x, order)[i].0,
                order,
            ),
    decreases s.len(),
{
    lemma_insert_multiset(s, x, order);
    if s.len() > 0 && key_before(x.0, s.last().0, order) {
        let init = s.drop_last();
        assert forall|i: int| 0 <= i < init.len() implies !key_before(
            y,
            #[trigger] init[i].0,
            order,
        ) by {
            assert(init[i] == s[i]);
        }
        lemma_insert_bound(init, x, y, order);
        lemma_insert_multiset(init, x, order);
        let m = insert_sorted(init, x, order);
        let r = insert_sorted(s, x, order);
        assert forall|i: int| 0 <= i < r.len() implies !key_before(y, #[trigger] r[i].0, order) by {
            if i < m.len() {
                assert(r[i] == m[i]);
            } else {
                assert(r[i] == s.last());
            }
        }
    }
}

/// Inserting adds one record and changes no other.
proof fn lemma_insert_multiset(s: Seq<(Seq<u8>, Seq<u8>)>, x: (Seq<u8>, Seq<u8>), order: KeyOrder)
    ensures
        insert_sorted(s, x, order).len() == s.len() + 1,
        insert_sorted(s, x, order).to_multiset() == s.to_multiset().insert(x),
    decreases s.len(),
{
    broadcast use vstd::seq_lib::group_to_multiset_ensures;

    if s.len() > 0 && key_before(x.0, s.last().0, order) {
        let init = s.drop_last();
        lemma_insert_multiset(init, x, order);
        assert(init.push(s.last()) =~= s);
        assert(s.to_multiset() == init.to_multiset().insert(s.last()));
        assert(insert_sorted(s, x, order).to_multiset() =~= s.to_multiset().insert(x));
    }
}

/// Inserting into sorted records keeps them sorted.
proof fn lemma_insert_sorted(s: Seq<(Seq<u8>, Seq<u8>)>, x: (Seq<u8>, Seq<u8>), order: KeyOrder)
    requires
        is_sorted(s, order),
    ensures
        is_sorted(insert_sorted(s, x, order), order),
    decreases s.len(),
{
    let r = insert_sorted(s, x, order);
    if s.len() > 0 && key_before(x.0, s.last().0, order) {
        let init = s.drop_last();
        let last = s.last();
        assert(is_sorted(init, order)) by {
            assert forall|i: int, j: int| 0 <= i < j < init.len() implies !key_before(
                init[j].0,
                init[i].0,
                order,
            ) by {
                assert(init[i] == s[i] && init[j] == s[j]);
            }
        }
        lemma_insert_sorted(init, x, order);
        assert forall|i: int| 0 <= i < init.len() implies !key_before(
            last.0,
            #[trigger] init[i].0,
            order,
        ) by {
            assert(init[i] == s[i]);
        }
        lemma_bytes_cmp_flip(x.0, last.0);
        lemma_insert_bound(init, x, last.0, order);
        let m = insert_sorted(init, x, order);
        assert forall|i: int, j: int| 0 <= i < j < r.len() implies !key_before(
            r[j].0,
            r[i].0,
            order,
        ) by {
            if j < r.len() - 1 {
                assert(r[i] == m[i] && r[j] == m[j]);
            } else {
                assert(r[i] == m[i]);
            }
        }
    } else if s.len() > 0 {
        assert forall|i: int, j: int| 0 <= i < j < r.len() implies !key_before(
            r[j].0,
            r[i].0,
            order,
        ) by {
            if j == r.len() - 1 {
                if i < s.len() - 1 {
                    lemma_not_before_trans(x.0, s.last().0, s[i].0, order);
                }
            } else {
                assert(r[i] == s[i] && r[j] == s[j]);
            }
        }
    }
}

/// Sorted records come out in order, and as the same records.
pub proof fn lemma_sort_records(s: Seq<(Seq<u8>, Seq<u8>)>, order: KeyOrder)
    ensures
        is_sorted(sort_records(s, order), order),
        sort_records(s, order).to_multiset() == s.to_multiset(),
    decreases s.len(),
{
    broadcast use vstd::seq_lib::group_to_multiset_ensures;

    if s.len() > 0 {
        let init = s.drop_last();
        lemma_sort_records(init, order);
        let sorted = sort_records(init, order);
        lemma_insert_sorted(sorted, s.last(), order);
        lemma_insert_multiset(sorted, s.last(), order);
        assert(init.push(s.last()) =~= s);
    } else {
        assert(sort_records(s, order) == s);
    }
}

/// Adding a record at the end adds its `KEY=VALUE` and NUL at the end of
/// the block.
pub proof fn lemma_block_of_push(e: Seq<(Seq<u8>, Seq<u8>)>, x: (Seq<u8>, Seq<u8>))
    ensures
        block_of(e.push(x)) == block_of(e) + x.0 + seq![EQUALS_SIGN] + x.1 + seq![0u8],
    decreases e.len(),
{
    if e.len() == 0 {
        assert(e.push(x).drop_first() =~= e);
        assert(block_of(e) =~= seq![]);
        assert(block_of(e.push(x)) =~= x.0 + seq![EQUALS_SIGN] + x.1 + seq![0u8] + seq![]);
        assert(x.0 + seq![EQUALS_SIGN] + x.1 + seq![0u8] + Seq::<u8>::empty() =~= block_of(e) + x.0
            + seq![EQUALS_SIGN] + x.1 + seq![0u8]);
    } else {
        assert(e.push(x).drop_first() =~= e.drop_first().push(x));
        lemma_block_of_push(e.drop_first(), x);
        assert(e.push(x)[0] == e[0]);
        assert(block_of(e.push(x)) =~= block_of(e) + x.0 + seq![EQUALS_SIGN] + x.1 + seq![0u8]);
    }
}

/// Sorting records that are already in order leaves them as they are.
pub proof fn lemma_sort_sorted(s: Seq<(Seq<u8>, Seq<u8>)>, order: KeyOrder)
    requires
        is_sorted(s, order),
    ensures
        sort_records(s, order) == s,
    decreases s.len(),
{
    if s.len() > 0 {
        let init = s.drop_last();
        assert(is_sorted(init, order)) by {
            assert forall|i: int, j: int| 0 <= i < j < init.len() implies !key_before(
                init[j].0,
                init[i].0,
                order,
            ) by {
                assert(init[i] == s[i] && init[j] == s[j]);
            }
        }
        lemma_sort_sorted(init, order);
        if init.len() > 0 {
            assert(init.last() == s[s.len() - 2]);
            assert(!key_before(s.last().0, init.last().0, order));
        }
        assert(init.push(s.last()) =~= s);
    }
}

proof fn lemma_skip_next<T>(a: Seq<T>, b: Seq<T>, i: int, j: int)
    requires
        0 <= i < a.len(),
        0 <= j <= b.len(),
        a.skip(i) == b.skip(j),
    ensures
        a.skip(i + 1) == b.skip(j + 1),
{
    assert(a.skip(i).len() == a.len() - i);
    assert(b.skip(j).len() == b.len() - j);
    assert(a.skip(i).drop_first() =~= a.skip(i + 1));
    assert(b.skip(j).drop_first() =~= b.skip(j + 1));
}

proof fn lemma_sort_unordered(s: Seq<(Seq<u8>, Seq<u8>)>)
    ensures
        sort_records(s, KeyOrder::Unordered) == s,
    decreases s.len(),
{
    if s.len() > 0 {
        lemma_sort_unordered(s.drop_last());
        assert(s.drop_last().push(s.last()) =~= s);
    }
}

} // verus!
