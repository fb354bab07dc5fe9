use crate::scalar::Order;
use vstd::prelude::*;
use vstd::utf8::{encode_utf8, encode_utf8_decode_utf8};

verus! {

/// The values a piece of text can be taken from: string slices and owned strings.
pub trait Text {
    /// The characters of the text.
    spec fn text(&self) -> Seq<char>;

    /// An owned copy of the text.
    fn to_text(&self) -> (r: String)
        ensures
            r@ == self.text(),
    ;
}

impl<'a> Text for &'a str {
    open spec fn text(&self) -> Seq<char> {
        (*self)@
    }

    fn to_text(&self) -> (r: String) {
        (*self).to_owned()
    }
}

impl Text for String {
    open spec fn text(&self) -> Seq<char> {
        self@
    }

    fn to_text(&self) -> (r: String) {
        self.clone()
    }
}

/// How two byte strings compare from position `from` on, given that they
/// agree before it: the first differing byte decides, and a proper prefix
/// is less.
pub open spec fn bytes_order_from(a: Seq<u8>, b: Seq<u8>, from: int) -> Order
    decreases a.len() - from,
{
    if from < 0 {
        Order::Equal
    } else if from >= a.len() && from >= b.len() {
        Order::Equal
    } else if from >= a.len() {
        Order::Less
    } else if from >= b.len() {
        Order::Greater
    } else if a[from] < b[from] {
        Order::Less
    } else if a[from] > b[from] {
        Order::Greater
    } else {
        bytes_order_from(a, b, from + 1)
    }
}

/// Lexicographic order of two texts by the bytes of their UTF-8 encoding,
/// which is the order of their code points.
pub open spec fn text_order(a: Seq<char>, b: Seq<char>) -> Order {
    bytes_order_from(encode_utf8(a), encode_utf8(b), 0)
}

/// Whether two strings hold the same characters.
pub fn same_text(a: &str, b: &str) -> (r: bool)
    ensures
        r == (a@ == b@),
{
    let x = a.as_bytes();
    let y = b.as_bytes();
    proof {
        encode_utf8_decode_utf8(a@);
        encode_utf8_decode_utf8(b@);
    }
    if x.len() != y.len() {
        return false;
    }
    let mut i: usize = 0;
    while i < x.len()
        invariant
            i <= x@.len(),
            x@.len() == y@.len(),
            x@ == encode_utf8(a@),
            y@ == encode_utf8(b@),
            forall|k: int| 0 <= k < i ==> x@[k] == y@[k],
        decreases x@.len() - i,
    {
        if x[i] != y[i] {
            return false;
        }
        i += 1;
    }
    assert(x@ =~= y@);
    true
}

/// Compares two strings lexicographically.
pub fn order_text(a: &str, b: &str) -> (r: Order)
    ensures
        r == text_order(a@, b@),
{
    let x = a.as_bytes();
    let y = b.as_bytes();
    let mut i: usize = 0;
    while i < x.len() && i < y.len()
        invariant
            i <= x@.len(),
            i <= y@.len(),
            x@ == encode_utf8(a@),
            y@ == encode_utf8(b@),
            bytes_order_from(x@, y@, i as int) == bytes_order_from(x@, y@, 0),
        decreases x@.len() - i,
    {
        if x[i] < y[i] {
            return Order::Less;
        }
        if x[i] > y[i] {
            return Order::Greater;
        }
        i += 1;
    }
    if i < y.len() {
        Order::Less
    } else if i < x.len() {
        Order::Greater
    } else {
        Order::Equal
    }
}

/// Equal texts compare equal, and only they do.
pub proof fn lemma_text_order_equal(a: Seq<char>, b: Seq<char>)
    ensures
        (text_order(a, b) == Order::Equal) <==> a == b,
{
    encode_utf8_decode_utf8(a);
    encode_utf8_decode_utf8(b);
    lemma_bytes_order_equal(encode_utf8(a), encode_utf8(b), 0);
    if text_order(a, b) == Order::Equal {
        assert(encode_utf8(a) =~= encode_utf8(b));
    }
}

proof fn lemma_bytes_order_equal(a: Seq<u8>, b: Seq<u8>, from: int)
    requires
        0 <= from,
    ensures
        (bytes_order_from(a, b, from) == Order::Equal) <==> (a.len() <= from && b.len() <= from)
            || (a.len() == b.len() && forall|k: int| from <= k < a.len() ==> a[k] == b[k]),
    decreases a.len() - from,
{
    if from < a.len() && from < b.len() && a[from] == b[from] {
        lemma_bytes_order_equal(a, b, from + 1);
    }
}

/// Exchanging two texts reverses their order.
pub proof fn lemma_text_order_reverse(a: Seq<char>, b: Seq<char>)
    ensures
        text_order(b, a) == text_order(a, b).spec_reverse(),
{
    lemma_bytes_order_reverse(encode_utf8(a), encode_utf8(b), 0);
}

/// The order of texts carries over: a text that does not come after a
/// second, which does not come after a third, does not come after the
/// third; and it is tied with the third only if all three are tied.
pub proof fn lemma_text_order_transitive(a: Seq<char>, b: Seq<char>, c: Seq<char>)
    requires
        text_order(a, b) != Order::Greater,
        text_order(b, c) != Order::Greater,
    ensures
        text_order(a, c) != Order::Greater,
        text_order(a, c) == Order::Equal ==> text_order(a, b) == Order::Equal && text_order(b, c)
            == Order::Equal,
{
    lemma_bytes_order_transitive(encode_utf8(a), encode_utf8(b), encode_utf8(c), 0);
}

proof fn lemma_bytes_order_reverse(a: Seq<u8>, b: Seq<u8>, from: int)
    requires
        0 <= from,
    ensures
        bytes_order_from(b, a, from) == bytes_order_from(a, b, from).spec_reverse(),
    decreases a.len() - from,
{
    if from < a.len() && from < b.len() && a[from] == b[from] {
        lemma_bytes_order_reverse(a, b, from + 1);
    }
}

proof fn lemma_bytes_order_transitive(a: Seq<u8>, b: Seq<u8>, c: Seq<u8>, from: int)
    requires
        0 <= from,
        bytes_order_from(a, b, from) != Order::Greater,
        bytes_order_from(b, c, from) != Order::Greater,
    ensures
        bytes_order_from(a, c, from) != Order::Greater,
        bytes_order_from(a, c, from) == Order::Equal ==> bytes_order_from(a, b, from)
            == Order::Equal && bytes_order_from(b, c, from) == Order::Equal,
    decreases a.len() - from,
{
    if from < a.len() && from < b.len() && from < c.len() && a[from] == b[from] && b[from]
        == c[from] {
        lemma_bytes_order_transitive(a, b, c, from + 1);
    }
}

} // verus!
