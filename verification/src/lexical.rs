//! Dictionary order on texts.
//!
//! Texts are ordered by their UTF-8 bytes, byte by byte, a proper prefix
//! standing before every text it begins. This is the order in which `str`
//! values compare in Rust.

use vstd::prelude::*;
use vstd::string::*;
use vstd::utf8::*;

verus! {

/// Where one text stands relative to another.
#[derive(Clone, Copy, Debug, PartialEq, Eq, Structural)]
pub enum Placement {
    Before,
    Same,
    After,
}

/// What a list of texts holds, text by text.
pub open spec fn texts_view(texts: Seq<String>) -> Seq<Seq<char>> {
    texts.map_values(|t: String| t@)
}

/// `a` and `b` agree on their first `k` bytes, and at position `k` either `a`
/// has ended while `b` goes on, or `a` holds the smaller byte.
pub open spec fn parts_at(a: Seq<u8>, b: Seq<u8>, k: int) -> bool {
    &&& 0 <= k <= a.len()
    &&& k < b.len()
    &&& forall|i: int| 0 <= i < k ==> a[i] == b[i]
    &&& (k < a.len() ==> a[k] < b[k])
}

/// `a` stands strictly before `b` in byte-wise dictionary order.
pub open spec fn bytes_precede(a: Seq<u8>, b: Seq<u8>) -> bool {
    exists|k: int| parts_at(a, b, k)
}

/// `a` stands strictly before `b` in the order of their UTF-8 encodings.
pub open spec fn text_precedes(a: Seq<char>, b: Seq<char>) -> bool {
    bytes_precede(encode_utf8(a), encode_utf8(b))
}

/// Every text in `s` stands strictly before all the texts after it.
pub open spec fn strictly_ascending(s: Seq<Seq<char>>) -> bool {
    forall|i: int, j: int| 0 <= i < j < s.len() ==> text_precedes(#[trigger] s[i], #[trigger] s[j])
}

/// Two byte sequences cannot each stand before the other, and none stands
/// before itself.
pub proof fn lemma_bytes_precede_asymmetric(a: Seq<u8>, b: Seq<u8>)
    requires
        bytes_precede(a, b),
    ensures
        !bytes_precede(b, a),
        a != b,
{
    let k = choose|k: int| parts_at(a, b, k);
    if bytes_precede(b, a) {
        let m = choose|m: int| parts_at(b, a, m);
        if m < k {
            assert(a[m] == b[m]);
        } else if k < m {
            assert(b[k] == a[k]);
        }
    }
}

/// Byte-wise dictionary order is transitive.
pub proof fn lemma_bytes_precede_transitive(a: Seq<u8>, b: Seq<u8>, c: Seq<u8>)
    requires
        bytes_precede(a, b),
        bytes_precede(b, c),
    ensures
        bytes_precede(a, c),
{
    let k = choose|k: int| parts_at(a, b, k);
    let m = choose|m: int| parts_at(b, c, m);
    let n = if k <= m { k } else { m };
    assert forall|i: int| 0 <= i < n implies a[i] == c[i] by {
        assert(a[i] == b[i]);
        assert(b[i] == c[i]);
    }
    if k < m {
        assert(b[k] == c[k]);
    }
    assert(parts_at(a, c, n));
}

/// Of two different byte sequences one stands before the other.
pub proof fn lemma_bytes_precede_total(a: Seq<u8>, b: Seq<u8>)
    ensures
        a == b || bytes_precede(a, b) || bytes_precede(b, a),
    decreases a.len(),
{
    if a.len() == 0 {
        if b.len() == 0 {
            assert(a =~= b);
        } else {
            assert(parts_at(a, b, 0));
        }
    } else if b.len() == 0 {
        assert(parts_at(b, a, 0));
    } else if a[0] < b[0] {
        assert(parts_at(a, b, 0));
    } else if b[0] < a[0] {
        assert(parts_at(b, a, 0));
    } else {
        let ra = a.drop_first();
        let rb = b.drop_first();
        lemma_bytes_precede_total(ra, rb);
        if ra == rb {
            assert(a =~= seq![a[0]] + ra);
            assert(b =~= seq![b[0]] + rb);
        } else if bytes_precede(ra, rb) {
            let k = choose|k: int| parts_at(ra, rb, k);
            assert forall|i: int| 0 <= i < k + 1 implies a[i] == b[i] by {
                if i > 0 {
                    assert(ra[i - 1] == rb[i - 1]);
                }
            }
            if k < ra.len() {
                assert(ra[k] == a[k + 1]);
                assert(rb[k] == b[k + 1]);
            }
            assert(parts_at(a, b, k + 1));
        } else {
            let k = choose|k: int| parts_at(rb, ra, k);
            assert forall|i: int| 0 <= i < k + 1 implies b[i] == a[i] by {
                if i > 0 {
                    assert(rb[i - 1] == ra[i - 1]);
                }
            }
            if k < rb.len() {
                assert(rb[k] == b[k + 1]);
                assert(ra[k] == a[k + 1]);
            }
            assert(parts_at(b, a, k + 1));
        }
    }
}

/// Texts with the same UTF-8 encoding are the same text.
pub proof fn lemma_encoding_tells_texts_apart(a: Seq<char>, b: Seq<char>)
    requires
        encode_utf8(a) == encode_utf8(b),
    ensures
        a == b,
{
    encode_utf8_decode_utf8(a);
    encode_utf8_decode_utf8(b);
}

/// No text stands before itself, and of two texts at most one stands before
/// the other.
pub proof fn lemma_text_precedes_asymmetric(a: Seq<char>, b: Seq<char>)
    requires
        text_precedes(a, b),
    ensures
        !text_precedes(b, a),
        a != b,
{
    lemma_bytes_precede_asymmetric(encode_utf8(a), encode_utf8(b));
}

/// The order on texts is transitive.
pub proof fn lemma_text_precedes_transitive(a: Seq<char>, b: Seq<char>, c: Seq<char>)
    requires
        text_precedes(a, b),
        text_precedes(b, c),
    ensures
        text_precedes(a, c),
{
    lemma_bytes_precede_transitive(encode_utf8(a), encode_utf8(b), encode_utf8(c));
}

/// Of two different texts one stands before the other.
pub proof fn lemma_text_precedes_total(a: Seq<char>, b: Seq<char>)
    ensures
        a == b || text_precedes(a, b) || text_precedes(b, a),
{
    lemma_bytes_precede_total(encode_utf8(a), encode_utf8(b));
    if encode_utf8(a) == encode_utf8(b) {
        lemma_encoding_tells_texts_apart(a, b);
    }
}

/// A strictly ascending sequence of texts holds no text twice.
pub proof fn lemma_strictly_ascending_is_distinct(s: Seq<Seq<char>>)
    requires
        strictly_ascending(s),
    ensures
        s.no_duplicates(),
{
    assert forall|i: int, j: int| 0 <= i < s.len() && 0 <= j < s.len() && i != j implies s[i]
        != s[j] by {
        if i < j {
            lemma_text_precedes_asymmetric(s[i], s[j]);
        } else {
            lemma_text_precedes_asymmetric(s[j], s[i]);
        }
    }
}

/// Compares two texts in dictionary order.
pub fn place(a: &str, b: &str) -> (p: Placement)
    ensures
        p == Placement::Before <==> text_precedes(a@, b@),
        p == Placement::Same <==> a@ == b@,
        p == Placement::After <==> text_precedes(b@, a@),
{
    let x = a.as_bytes();
    let y = b.as_bytes();
    let n = x.len();
    let m = y.len();
    let mut i: usize = 0;
    while i < n && i < m && x[i] == y[i]
        invariant
            n == x@.len(),
            m == y@.len(),
            i <= n,
            i <= m,
            forall|j: int| 0 <= j < i ==> x@[j] == y@[j],
        decreases n - i,
    {
        i = i + 1;
    }
    proof {
        let ea = encode_utf8(a@);
        let eb = encode_utf8(b@);
        assert(x@ == ea);
        assert(y@ == eb);
        if i == n && i == m {
            assert(ea =~= eb);
            lemma_encoding_tells_texts_apart(a@, b@);
            if text_precedes(a@, b@) {
                lemma_text_precedes_asymmetric(a@, b@);
            }
        } else if i == n || (i < m && x@[i as int] < y@[i as int]) {
            assert(parts_at(ea, eb, i as int));
            lemma_text_precedes_asymmetric(a@, b@);
        } else {
            assert(parts_at(eb, ea, i as int));
            lemma_text_precedes_asymmetric(b@, a@);
        }
    }
    if i == n && i == m {
        Placement::Same
    } else if i == n {
        Placement::Before
    } else if i == m {
        Placement::After
    } else if x[i] < y[i] {
        Placement::Before
    } else {
        Placement::After
    }
}

/// Tells whether two texts are the same.
pub fn same_text(a: &str, b: &str) -> (same: bool)
    ensures
        same == (a@ == b@),
{
    place(a, b) == Placement::Same
}

} // verus!
