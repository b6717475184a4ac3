//! Text fields and the order in which record identifiers are kept.
//!
//! Every text field of a record is a `String`; contracts speak of its view, a
//! `Seq<char>`. Identifiers are ordered by the bytes of their UTF-8 encoding,
//! compared lexicographically.

use vstd::prelude::*;

verus! {

/// The bytes by which a text is ordered: its UTF-8 encoding.
pub open spec fn key_bytes(t: Seq<char>) -> Seq<u8> {
    vstd::utf8::encode_utf8(t)
}

/// `a` and `b` agree on their first `k` bytes, and there `a` ends while `b`
/// goes on, or `a` has the smaller byte.
pub open spec fn decided_at(a: Seq<u8>, b: Seq<u8>, k: int) -> bool {
    &&& 0 <= k <= a.len()
    &&& k < b.len()
    &&& forall|j: int| 0 <= j < k ==> a[j] == b[j]
    &&& (k == a.len() || a[k] < b[k])
}

/// Strict lexicographic order on byte strings: `a` is a proper prefix of `b`,
/// or at the first place where they differ `a` has the smaller byte.
pub open spec fn bytes_lt(a: Seq<u8>, b: Seq<u8>) -> bool {
    exists|k: int| #[trigger] decided_at(a, b, k)
}

/// Strict order on texts: that of their bytes.
pub open spec fn text_lt(a: Seq<char>, b: Seq<char>) -> bool {
    bytes_lt(key_bytes(a), key_bytes(b))
}

/// No byte string comes before itself.
pub proof fn lemma_bytes_lt_irreflexive(a: Seq<u8>)
    ensures
        !bytes_lt(a, a),
{
}

/// The order on byte strings is transitive.
pub proof fn lemma_bytes_lt_transitive(a: Seq<u8>, b: Seq<u8>, c: Seq<u8>)
    requires
        bytes_lt(a, b),
        bytes_lt(b, c),
    ensures
        bytes_lt(a, c),
{
    let k1 = choose|k: int| #[trigger] decided_at(a, b, k);
    let k2 = choose|k: int| #[trigger] decided_at(b, c, k);
    let k = if k1 <= k2 { k1 } else { k2 };
    assert(decided_at(a, c, k));
}

/// Of two byte strings, one comes before the other or they are equal.
pub proof fn lemma_bytes_lt_total(a: Seq<u8>, b: Seq<u8>)
    ensures
        bytes_lt(a, b) || a == b || bytes_lt(b, a),
    decreases a.len(),
{
    if a.len() == 0 {
        if b.len() == 0 {
            assert(a =~= b);
        } else {
            assert(decided_at(a, b, 0));
        }
    } else if b.len() == 0 {
        assert(decided_at(b, a, 0));
    } else if a[0] < b[0] {
        assert(decided_at(a, b, 0));
    } else if b[0] < a[0] {
        assert(decided_at(b, a, 0));
    } else {
        let ta = a.drop_first();
        let tb = b.drop_first();
        lemma_bytes_lt_total(ta, tb);
        if bytes_lt(ta, tb) {
            let k = choose|k: int| #[trigger] decided_at(ta, tb, k);
            assert forall|j: int| 0 <= j < k + 1 implies a[j] == b[j] by {
                if j > 0 {
                    assert(a[j] == ta[j - 1]);
                    assert(b[j] == tb[j - 1]);
                }
            }
            if k < ta.len() {
                assert(a[k + 1] == ta[k]);
                assert(b[k + 1] == tb[k]);
            }
            assert(decided_at(a, b, k + 1));
        } else if bytes_lt(tb, ta) {
            let k = choose|k: int| #[trigger] decided_at(tb, ta, k);
            assert forall|j: int| 0 <= j < k + 1 implies b[j] == a[j] by {
                if j > 0 {
                    assert(a[j] == ta[j - 1]);
                    assert(b[j] == tb[j - 1]);
                }
            }
            if k < tb.len() {
                assert(a[k + 1] == ta[k]);
                assert(b[k + 1] == tb[k]);
            }
            assert(decided_at(b, a, k + 1));
        } else {
            assert(ta == tb);
            assert(a =~= seq![a[0]] + ta);
            assert(b =~= seq![b[0]] + tb);
        }
    }
}

/// Texts with the same bytes are the same text.
pub proof fn lemma_key_bytes_injective(a: Seq<char>, b: Seq<char>)
    requires
        key_bytes(a) == key_bytes(b),
    ensures
        a == b,
{
    vstd::utf8::encode_utf8_decode_utf8(a);
    vstd::utf8::encode_utf8_decode_utf8(b);
}

/// No text comes before itself.
pub proof fn lemma_text_lt_irreflexive(a: Seq<char>)
    ensures
        !text_lt(a, a),
{
    lemma_bytes_lt_irreflexive(key_bytes(a));
}

/// The order on texts is transitive.
pub proof fn lemma_text_lt_transitive(a: Seq<char>, b: Seq<char>, c: Seq<char>)
    requires
        text_lt(a, b),
        text_lt(b, c),
    ensures
        text_lt(a, c),
{
    lemma_bytes_lt_transitive(key_bytes(a), key_bytes(b), key_bytes(c));
}

/// Of two texts, one comes before the other or they are equal.
pub proof fn lemma_text_lt_total(a: Seq<char>, b: Seq<char>)
    ensures
        text_lt(a, b) || a == b || text_lt(b, a),
{
    lemma_bytes_lt_total(key_bytes(a), key_bytes(b));
    if key_bytes(a) == key_bytes(b) {
        lemma_key_bytes_injective(a, b);
    }
}

/// How one text stands to another in the order of identifiers.
#[derive(Clone, Copy, Debug, PartialEq, Eq, Structural)]
pub enum Rank {
    /// It comes first.
    Before,
    /// They are the same text.
    Same,
    /// It comes later.
    After,
}

/// What `rank` answers for `a` against `b`.
pub open spec fn rank_of(a: Seq<char>, b: Seq<char>) -> Rank {
    if a == b {
        Rank::Same
    } else if text_lt(a, b) {
        Rank::Before
    } else {
        Rank::After
    }
}

/// Compares two byte strings lexicographically.
fn rank_bytes(a: &[u8], b: &[u8]) -> (r: Rank)
    ensures
        r == Rank::Before ==> bytes_lt(a@, b@),
        r == Rank::Same ==> a@ == b@,
        r == Rank::After ==> bytes_lt(b@, a@),
{
    let mut i: usize = 0;
    while i < a.len() && i < b.len()
        invariant
            i <= a.len(),
            i <= b.len(),
            forall|j: int| 0 <= j < i ==> a@[j] == b@[j],
        decreases a.len() - i,
    {
        if a[i] < b[i] {
            assert(decided_at(a@, b@, i as int));
            return Rank::Before;
        }
        if b[i] < a[i] {
            assert(decided_at(b@, a@, i as int));
            return Rank::After;
        }
        i = i + 1;
    }
    if i < b.len() {
        assert(decided_at(a@, b@, i as int));
        Rank::Before
    } else if i < a.len() {
        assert(decided_at(b@, a@, i as int));
        Rank::After
    } else {
        assert(a@ =~= b@);
        Rank::Same
    }
}

/// Says how `a` stands to `b` in the order of identifiers.
pub fn rank(a: &String, b: &String) -> (r: Rank)
    ensures
        r == rank_of(a@, b@),
{
    let r = rank_bytes(a.as_str().as_bytes(), b.as_str().as_bytes());
    proof {
        lemma_text_lt_irreflexive(a@);
        if r == Rank::Same {
            lemma_key_bytes_injective(a@, b@);
        }
        if r == Rank::After && text_lt(a@, b@) {
            lemma_text_lt_transitive(a@, b@, a@);
        }
    }
    r
}

/// Whether a text field was left empty.
pub fn is_blank(s: &String) -> (r: bool)
    ensures
        r == (s@.len() == 0),
{
    s.as_str().is_empty()
}

/// Whether two texts are the same.
pub fn same_text(a: &String, b: &String) -> (r: bool)
    ensures
        r == (a@ == b@),
{
    *a == *b
}

} // verus!
