use vstd::prelude::*;

verus! {

use vstd::string::StringSliceAdditionalSpecFns;

/// Mathematical model of a [`Value`]: text is a sequence of characters,
/// byte strings and arrays are sequences, floats are their IEEE-754 bit
/// patterns.
pub enum ValView {
    Null,
    I64(i64),
    U64(u64),
    F32(u32),
    F64(u64),
    Bool(bool),
    Text(Seq<char>),
    Bytes(Seq<u8>),
    Array(Seq<ValView>),
}

/// A tagged scalar / text / bytes / array value, the unit of key-value
/// payload data carried by a record. Floating-point members are carried as
/// their IEEE-754 bit patterns, so that the codec is exact; the embedding
/// application converts with `to_bits` / `from_bits`.
#[derive(Debug, PartialEq)]
pub enum Value {
    Null,
    I64(i64),
    U64(u64),
    F32Bits(u32),
    F64Bits(u64),
    Bool(bool),
    Text(String),
    Bytes(Vec<u8>),
    Array(Vec<Value>),
}

pub open spec fn view_of(v: Value) -> ValView
    decreases v,
{
    match v {
        Value::Null => ValView::Null,
        Value::I64(x) => ValView::I64(x),
        Value::U64(x) => ValView::U64(x),
        Value::F32Bits(x) => ValView::F32(x),
        Value::F64Bits(x) => ValView::F64(x),
        Value::Bool(x) => ValView::Bool(x),
        Value::Text(s) => ValView::Text(s@),
        Value::Bytes(b) => ValView::Bytes(b@),
        Value::Array(elems) => ValView::Array(view_of_seq(elems@)),
    }
}

pub open spec fn view_of_seq(s: Seq<Value>) -> Seq<ValView>
    decreases s,
{
    if s.len() == 0 {
        Seq::empty()
    } else {
        seq![view_of(s[0])] + view_of_seq(s.drop_first())
    }
}

/// The model of a sequence of values is the sequence of their models,
/// element by element.
pub proof fn lemma_view_of_seq_index(s: Seq<Value>)
    ensures
        view_of_seq(s).len() == s.len(),
        forall|i: int| 0 <= i < s.len() ==> view_of_seq(s)[i] == view_of(#[trigger] s[i]),
    decreases s.len(),
{
    if s.len() > 0 {
        lemma_view_of_seq_index(s.drop_first());
        assert forall|i: int| 0 <= i < s.len() implies view_of_seq(s)[i] == view_of(
            #[trigger] s[i],
        ) by {
            if i > 0 {
                assert(s.drop_first()[i - 1] == s[i]);
                assert(view_of_seq(s)[i] == view_of_seq(s.drop_first())[i - 1]);
            }
        }
    }
}

/// Appending one value to a sequence appends its model to the sequence's
/// model.
pub proof fn lemma_view_of_seq_push(s: Seq<Value>, v: Value)
    ensures
        view_of_seq(s.push(v)) == view_of_seq(s) + seq![view_of(v)],
    decreases s.len(),
{
    if s.len() == 0 {
        let sp = s.push(v);
        assert(sp[0] == v);
        assert(sp.drop_first() =~= Seq::<Value>::empty());
        assert(view_of_seq(sp) == seq![view_of(sp[0])] + view_of_seq(sp.drop_first()));
        assert(view_of_seq(Seq::<Value>::empty()) == Seq::<ValView>::empty());
        assert(view_of_seq(sp) =~= seq![view_of(v)]);
        assert(view_of_seq(s) + seq![view_of(v)] =~= seq![view_of(v)]);
    } else {
        assert(s.push(v).drop_first() =~= s.drop_first().push(v));
        assert(s.push(v)[0] == s[0]);
        lemma_view_of_seq_push(s.drop_first(), v);
        assert(view_of_seq(s.push(v)) =~= view_of_seq(s) + seq![view_of(v)]);
    }
}

impl View for Value {
    type V = ValView;

    open spec fn view(&self) -> ValView {
        view_of(*self)
    }
}

impl Value {
    /// A text value holding a copy of the given string.
    pub fn text(s: &str) -> (r: Value)
        ensures
            r@ == ValView::Text(s@),
    {
        Value::Text(s.to_owned())
    }

    /// A byte-string value holding a copy of the given bytes.
    pub fn bytes(b: &[u8]) -> (r: Value)
        ensures
            r@ == ValView::Bytes(b@),
    {
        Value::Bytes(vstd::slice::slice_to_vec(b))
    }
}

/// Strict byte-wise lexicographic order on byte sequences; the order in
/// which a key-value map keeps its keys.
pub open spec fn lex_lt(a: Seq<u8>, b: Seq<u8>) -> bool
    decreases a.len(),
{
    if b.len() == 0 {
        false
    } else if a.len() == 0 {
        true
    } else {
        a[0] < b[0] || (a[0] == b[0] && lex_lt(a.drop_first(), b.drop_first()))
    }
}

/// Exactly one of `a < b`, `a == b`, `b < a` holds in the lexicographic
/// order.
pub proof fn lemma_lex_trichotomy(a: Seq<u8>, b: Seq<u8>)
    ensures
        lex_lt(a, b) ==> !(a == b) && !lex_lt(b, a),
        a == b ==> !lex_lt(a, b) && !lex_lt(b, a),
        !lex_lt(a, b) && !lex_lt(b, a) ==> a == b,
    decreases a.len(),
{
    if a.len() > 0 && b.len() > 0 {
        lemma_lex_trichotomy(a.drop_first(), b.drop_first());
        if a.drop_first() == b.drop_first() && a[0] == b[0] {
            assert(a.len() == b.len());
            assert forall|j: int| 0 <= j < a.len() implies a[j] == b[j] by {
                if j > 0 {
                    assert(a.drop_first()[j - 1] == b.drop_first()[j - 1]);
                }
            }
            assert(a =~= b);
        }
        if a == b {
            assert(a.drop_first() =~= b.drop_first());
        }
    }
}

/// With equal prefixes of length `i`, the order of two sequences is the
/// order of their suffixes from `i` on.
pub proof fn lemma_lex_skip(a: Seq<u8>, b: Seq<u8>, i: int)
    requires
        0 <= i <= a.len(),
        i <= b.len(),
        a.subrange(0, i) == b.subrange(0, i),
    ensures
        lex_lt(a, b) == lex_lt(a.skip(i), b.skip(i)),
        (a == b) == (a.len() == b.len() && a.skip(i) == b.skip(i)),
    decreases i,
{
    if i == 0 {
        assert(a.skip(0) =~= a);
        assert(b.skip(0) =~= b);
    } else {
        assert(a[0] == b[0]) by {
            assert(a.subrange(0, i)[0] == a[0]);
            assert(b.subrange(0, i)[0] == b[0]);
        }
        assert(a.drop_first().subrange(0, i - 1) =~= b.drop_first().subrange(0, i - 1)) by {
            assert forall|j: int| 0 <= j < i - 1 implies #[trigger] a.drop_first().subrange(
                0,
                i - 1,
            )[j] == b.drop_first().subrange(0, i - 1)[j] by {
                assert(a.drop_first().subrange(0, i - 1)[j] == a[j + 1]);
                assert(b.drop_first().subrange(0, i - 1)[j] == b[j + 1]);
                assert(a.subrange(0, i)[j + 1] == a[j + 1]);
                assert(b.subrange(0, i)[j + 1] == b[j + 1]);
            }
        }
        lemma_lex_skip(a.drop_first(), b.drop_first(), i - 1);
        assert(a.drop_first().skip(i - 1) =~= a.skip(i));
        assert(b.drop_first().skip(i - 1) =~= b.skip(i));
        if a.len() == b.len() && a.skip(i) == b.skip(i) {
            assert(a.drop_first() == b.drop_first());
            assert forall|j: int| 0 <= j < a.len() implies a[j] == b[j] by {
                if j > 0 {
                    assert(a.drop_first()[j - 1] == b.drop_first()[j - 1]);
                }
            }
            assert(a =~= b);
        }
        if a == b {
            assert(a.drop_first() =~= b.drop_first());
        }
    }
}

/// Result of a three-way comparison of two keys.
#[derive(Clone, Copy, Debug, PartialEq, Eq, Structural)]
pub enum KeyOrder {
    Lt,
    Eq,
    Gt,
}

/// Three-way byte-wise lexicographic comparison of two byte slices.
pub fn bytes_cmp(a: &[u8], b: &[u8]) -> (r: KeyOrder)
    ensures
        (r == KeyOrder::Lt) == lex_lt(a@, b@),
        (r == KeyOrder::Eq) == (a@ == b@),
        (r == KeyOrder::Gt) == lex_lt(b@, a@),
{
    let a_len: usize = a.len();
    let b_len: usize = b.len();
    let mut i: usize = 0;
    loop
        invariant
            i <= a_len,
            i <= b_len,
            a_len == a@.len(),
            b_len == b@.len(),
            a@.subrange(0, i as int) =~= b@.subrange(0, i as int),
        decreases a_len - i,
    {
        proof {
            lemma_lex_skip(a@, b@, i as int);
        }
        if i >= a_len || i >= b_len {
            if a_len == b_len {
                proof {
                    assert(a@.skip(i as int) =~= b@.skip(i as int));
                    lemma_lex_trichotomy(a@, b@);
                }
                return KeyOrder::Eq;
            } else if a_len < b_len {
                proof {
                    assert(a@.skip(i as int).len() == 0);
                    assert(b@.skip(i as int).len() > 0);
                    lemma_lex_trichotomy(a@, b@);
                }
                return KeyOrder::Lt;
            } else {
                proof {
                    assert(b@.skip(i as int).len() == 0);
                    assert(a@.skip(i as int).len() > 0);
                    lemma_lex_trichotomy(a@, b@);
                }
                return KeyOrder::Gt;
            }
        }
        let x: u8 = a[i];
        let y: u8 = b[i];
        if x < y {
            proof {
                assert(a@.skip(i as int)[0] == x);
                assert(b@.skip(i as int)[0] == y);
                lemma_lex_trichotomy(a@, b@);
            }
            return KeyOrder::Lt;
        } else if x > y {
            proof {
                assert(a@.skip(i as int)[0] == x);
                assert(b@.skip(i as int)[0] == y);
                lemma_lex_trichotomy(a@, b@);
            }
            return KeyOrder::Gt;
        }
        proof {
            assert(a@.subrange(0, i + 1 as int) =~= b@.subrange(0, i + 1 as int)) by {
                assert forall|j: int| 0 <= j < i + 1 implies #[trigger] a@.subrange(
                    0,
                    i + 1 as int,
                )[j] == b@.subrange(0, i + 1 as int)[j] by {
                    if j < i {
                        assert(a@.subrange(0, i as int)[j] == b@.subrange(0, i as int)[j]);
                    }
                }
            }
        }
        i = i + 1;
    }
}

/// Keys are ordered by the lexicographic order of their UTF-8 encodings,
/// which coincides with the order of their Unicode scalar values.
pub open spec fn key_lt(a: Seq<char>, b: Seq<char>) -> bool {
    lex_lt(vstd::utf8::encode_utf8(a), vstd::utf8::encode_utf8(b))
}

/// Two strings with equal UTF-8 encodings are the same string.
pub proof fn lemma_utf8_injective(a: Seq<char>, b: Seq<char>)
    requires
        vstd::utf8::encode_utf8(a) == vstd::utf8::encode_utf8(b),
    ensures
        a == b,
{
    vstd::utf8::encode_utf8_decode_utf8(a);
    vstd::utf8::encode_utf8_decode_utf8(b);
}

/// Three-way comparison of two strings by their UTF-8 encodings.
pub fn str_cmp(a: &str, b: &str) -> (r: KeyOrder)
    ensures
        (r == KeyOrder::Lt) == key_lt(a@, b@),
        (r == KeyOrder::Eq) == (a@ == b@),
        (r == KeyOrder::Gt) == key_lt(b@, a@),
{
    let r = bytes_cmp(a.as_bytes(), b.as_bytes());
    proof {
        if r == KeyOrder::Eq {
            lemma_utf8_injective(a@, b@);
        }
        if a@ == b@ {
            lemma_lex_trichotomy(a.spec_bytes(), b.spec_bytes());
        }
    }
    r
}

/// An ordered mapping from text keys to values: the pairs are kept sorted
/// by key and the keys are unique, so iteration order, rendering and
/// encoded bytes are deterministic.
#[derive(Debug, PartialEq)]
pub struct KV {
    pub pairs: Vec<(String, Value)>,
}

impl View for KV {
    type V = Seq<(Seq<char>, ValView)>;

    open spec fn view(&self) -> Seq<(Seq<char>, ValView)> {
        Seq::new(self.pairs@.len(), |i: int| (self.pairs@[i].0@, view_of(self.pairs@[i].1)))
    }
}

/// The keys of the mapping are strictly increasing.
pub open spec fn kv_sorted(m: Seq<(Seq<char>, ValView)>) -> bool {
    forall|i: int| 0 <= i && i + 1 < m.len() ==> key_lt(#[trigger] m[i].0, m[i + 1].0)
}

/// Insertion of a pair into a sorted association list: the new pair lands
/// at its key's sorted position, replacing an equal key.
pub open spec fn kv_insert(m: Seq<(Seq<char>, ValView)>, k: Seq<char>, v: ValView) -> Seq<
    (Seq<char>, ValView),
>
    decreases m.len(),
{
    if m.len() == 0 {
        seq![(k, v)]
    } else if key_lt(k, m[0].0) {
        seq![(k, v)] + m
    } else if k == m[0].0 {
        seq![(k, v)] + m.drop_first()
    } else {
        seq![m[0]] + kv_insert(m.drop_first(), k, v)
    }
}

/// The value stored under a key, if any.
pub open spec fn kv_lookup(m: Seq<(Seq<char>, ValView)>, k: Seq<char>) -> Option<ValView>
    decreases m.len(),
{
    if m.len() == 0 {
        Option::None
    } else if m[0].0 == k {
        Option::Some(m[0].1)
    } else {
        kv_lookup(m.drop_first(), k)
    }
}

impl KV {
    /// Well-formed: keys strictly increasing.
    pub open spec fn wf(&self) -> bool {
        kv_sorted(self@)
    }

    /// An empty mapping.
    pub fn new() -> (r: KV)
        ensures
            r@ =~= Seq::<(Seq<char>, ValView)>::empty(),
            r.wf(),
    {
        KV { pairs: Vec::new() }
    }

    /// Number of keys.
    pub fn len(&self) -> (n: usize)
        ensures
            n == self@.len(),
    {
        self.pairs.len()
    }

    /// Inserts a pair at its key's sorted position; an existing pair with
    /// the same key is replaced.
    pub fn insert(&mut self, key: String, value: Value)
        requires
            old(self).wf(),
        ensures
            final(self).wf(),
            final(self)@ == kv_insert(old(self)@, key@, view_of(value)),
    {
        let ghost m = self@;
        let ghost k = key@;
        let ghost v = view_of(value);
        let mut idx: usize = 0;
        loop
            invariant
                self == old(self),
                m == self@,
                k == key@,
                idx <= self.pairs.len(),
                forall|j: int| 0 <= j < idx ==> key_lt(#[trigger] m[j].0, k),
            ensures
                self == old(self),
                m == self@,
                idx <= self.pairs.len(),
                forall|j: int| 0 <= j < idx ==> key_lt(#[trigger] m[j].0, k),
                idx < self.pairs.len() ==> !key_lt(m[idx as int].0, k),
            decreases self.pairs.len() - idx,
        {
            if idx >= self.pairs.len() {
                break ;
            }
            let r = str_cmp(self.pairs[idx].0.as_str(), &key);
            proof {
                assert(m[idx as int].0 == self.pairs@[idx as int].0@);
            }
            if r != KeyOrder::Lt {
                proof {
                    lemma_lex_trichotomy(
                        vstd::utf8::encode_utf8(k),
                        vstd::utf8::encode_utf8(m[idx as int].0),
                    );
                }
                break ;
            }
            idx = idx + 1;
        }
        if idx < self.pairs.len() {
            let r = str_cmp(self.pairs[idx].0.as_str(), &key);
            if r == KeyOrder::Eq {
                proof {
                    lemma_kv_insert_at(m, k, v, idx as int);
                }
                self.pairs.set(idx, (key, value));
                proof {
                    assert(self@ =~= m.subrange(0, idx as int) + seq![(k, v)] + m.skip(
                        idx as int + 1,
                    ));
                    lemma_kv_insert_sorted(m, k, v);
                }
                return ;
            }
        }
        proof {
            lemma_kv_insert_at(m, k, v, idx as int);
        }
        self.pairs.insert(idx, (key, value));
        proof {
            assert(self@ =~= m.subrange(0, idx as int) + seq![(k, v)] + m.skip(idx as int));
            lemma_kv_insert_sorted(m, k, v);
        }
    }

    /// The value stored under the given key, if any.
    pub fn get(&self, key: &str) -> (r: Option<&Value>)
        ensures
            match r {
                Option::Some(v) => kv_lookup(self@, key@) == Option::Some(view_of(*v)),
                Option::None => kv_lookup(self@, key@) is None,
            },
    {
        let ghost m = self@;
        let ghost k = key@;
        let mut i: usize = 0;
        loop
            invariant
                m == self@,
                k == key@,
                i <= self.pairs.len(),
                forall|j: int| 0 <= j < i ==> (#[trigger] m[j].0) != k,
            decreases self.pairs.len() - i,
        {
            if i >= self.pairs.len() {
                proof {
                    lemma_kv_lookup_skip(m, k, i as int);
                }
                return Option::None;
            }
            let r = str_cmp(self.pairs[i].0.as_str(), key);
            if r == KeyOrder::Eq {
                proof {
                    lemma_kv_lookup_skip(m, k, i as int);
                    assert(m.skip(i as int)[0] == m[i as int]);
                }
                return Option::Some(&self.pairs[i].1);
            }
            proof {
                if m[i as int].0 == k {
                    lemma_lex_trichotomy(
                        vstd::utf8::encode_utf8(m[i as int].0),
                        vstd::utf8::encode_utf8(k),
                    );
                }
            }
            i = i + 1;
        }
    }
}

/// Where every key before `idx` is below `k` and the key at `idx` (if any)
/// is not, insertion lands exactly at `idx`.
pub proof fn lemma_kv_insert_at(m: Seq<(Seq<char>, ValView)>, k: Seq<char>, v: ValView, idx: int)
    requires
        0 <= idx <= m.len(),
        forall|j: int| 0 <= j < idx ==> key_lt(#[trigger] m[j].0, k),
        idx < m.len() ==> !key_lt(m[idx].0, k),
    ensures
        idx < m.len() && k == m[idx].0 ==> kv_insert(m, k, v) == m.subrange(0, idx) + seq![(k, v)]
            + m.skip(idx + 1),
        (idx == m.len() || k != m[idx].0) ==> kv_insert(m, k, v) == m.subrange(0, idx) + seq![
            (k, v),
        ] + m.skip(idx),
    decreases idx,
{
    if idx == 0 {
        if m.len() == 0 {
            assert(kv_insert(m, k, v) =~= m.subrange(0, 0) + seq![(k, v)] + m.skip(0));
        } else if k == m[0].0 {
            lemma_lex_trichotomy(vstd::utf8::encode_utf8(k), vstd::utf8::encode_utf8(m[0].0));
            assert(kv_insert(m, k, v) =~= m.subrange(0, 0) + seq![(k, v)] + m.skip(1));
        } else {
            assert(key_lt(k, m[0].0)) by {
                lemma_lex_trichotomy(vstd::utf8::encode_utf8(k), vstd::utf8::encode_utf8(m[0].0));
                if vstd::utf8::encode_utf8(k) == vstd::utf8::encode_utf8(m[0].0) {
                    lemma_utf8_injective(k, m[0].0);
                }
            }
            assert(kv_insert(m, k, v) =~= m.subrange(0, 0) + seq![(k, v)] + m.skip(0));
        }
    } else {
        assert(key_lt(m[0].0, k));
        assert(!key_lt(k, m[0].0) && k != m[0].0) by {
            lemma_lex_trichotomy(vstd::utf8::encode_utf8(m[0].0), vstd::utf8::encode_utf8(k));
        }
        let md = m.drop_first();
        assert(forall|j: int| 0 <= j < idx - 1 ==> key_lt(#[trigger] md[j].0, k));
        lemma_kv_insert_at(md, k, v, idx - 1);
        if idx < m.len() && k == m[idx].0 {
            assert(md[idx - 1] == m[idx]);
            assert(kv_insert(m, k, v) =~= m.subrange(0, idx) + seq![(k, v)] + m.skip(idx + 1));
        } else {
            assert(kv_insert(m, k, v) =~= m.subrange(0, idx) + seq![(k, v)] + m.skip(idx));
        }
    }
}

/// Insertion into a sorted association list keeps it sorted.
pub proof fn lemma_kv_insert_sorted(m: Seq<(Seq<char>, ValView)>, k: Seq<char>, v: ValView)
    requires
        kv_sorted(m),
    ensures
        kv_sorted(kv_insert(m, k, v)),
    decreases m.len(),
{
    if m.len() == 0 {
    } else if key_lt(k, m[0].0) {
        let r = seq![(k, v)] + m;
        assert forall|i: int| 0 <= i && i + 1 < r.len() implies key_lt(
            #[trigger] r[i].0,
            r[i + 1].0,
        ) by {
            if i > 0 {
                assert(r[i] == m[i - 1]);
                assert(r[i + 1] == m[i]);
            }
        }
    } else if k == m[0].0 {
        let r = seq![(k, v)] + m.drop_first();
        assert forall|i: int| 0 <= i && i + 1 < r.len() implies key_lt(
            #[trigger] r[i].0,
            r[i + 1].0,
        ) by {
            if i > 0 {
                assert(r[i] == m[i]);
                assert(r[i + 1] == m[i + 1]);
            } else {
                assert(r[1] == m[1]);
            }
        }
    } else {
        let md = m.drop_first();
        assert(kv_sorted(md)) by {
            assert forall|i: int| 0 <= i && i + 1 < md.len() implies key_lt(
                #[trigger] md[i].0,
                md[i + 1].0,
            ) by {
                assert(md[i] == m[i + 1]);
                assert(md[i + 1] == m[i + 2]);
            }
        }
        lemma_kv_insert_sorted(md, k, v);
        let rec = kv_insert(md, k, v);
        let r = seq![m[0]] + rec;
        assert(!key_lt(k, m[0].0) && k != m[0].0);
        assert(key_lt(m[0].0, k)) by {
            lemma_lex_trichotomy(vstd::utf8::encode_utf8(m[0].0), vstd::utf8::encode_utf8(k));
            if vstd::utf8::encode_utf8(k) == vstd::utf8::encode_utf8(m[0].0) {
                lemma_utf8_injective(k, m[0].0);
            }
        }
        assert(rec.len() > 0 && (rec[0] == (k, v) || (md.len() > 0 && rec[0] == md[0])));
        assert(key_lt(m[0].0, rec[0].0)) by {
            if rec[0] == (k, v) {
            } else {
                assert(rec[0].0 == m[1].0);
            }
        }
        assert forall|i: int| 0 <= i && i + 1 < r.len() implies key_lt(
            #[trigger] r[i].0,
            r[i + 1].0,
        ) by {
            if i == 0 {
                assert(r[1] == rec[0]);
            } else {
                assert(r[i] == rec[i - 1]);
                assert(r[i + 1] == rec[i]);
            }
        }
    }
}

/// Looking a key up may skip any prefix of pairs whose keys differ from it.
pub proof fn lemma_kv_lookup_skip(m: Seq<(Seq<char>, ValView)>, k: Seq<char>, i: int)
    requires
        0 <= i <= m.len(),
        forall|j: int| 0 <= j < i ==> (#[trigger] m[j].0) != k,
    ensures
        kv_lookup(m, k) == kv_lookup(m.skip(i), k),
    decreases i,
{
    if i == 0 {
        assert(m.skip(0) =~= m);
    } else {
        assert(m[0].0 != k);
        let md = m.drop_first();
        assert(forall|j: int| 0 <= j < i - 1 ==> (#[trigger] md[j].0) != k);
        lemma_kv_lookup_skip(md, k, i - 1);
        assert(md.skip(i - 1) =~= m.skip(i));
    }
}

} // verus!
