//! The order in which the download ranking walks app addresses: the order of their
//! UTF-8 bytes, as strings compare.
use vstd::prelude::*;

verus! {

/// `a` sorts before `b` byte by byte, a proper prefix first.
pub open spec fn bytes_before(a: Seq<u8>, b: Seq<u8>) -> bool
    decreases a.len(),
{
    if a.len() == 0 {
        b.len() > 0
    } else if b.len() == 0 {
        false
    } else if a[0] != b[0] {
        a[0] < b[0]
    } else {
        bytes_before(a.drop_first(), b.drop_first())
    }
}

/// Address `x` sorts before address `y` as strings do: by their UTF-8 bytes.
pub open spec fn addr_before(x: Seq<char>, y: Seq<char>) -> bool {
    bytes_before(vstd::utf8::encode_utf8(x), vstd::utf8::encode_utf8(y))
}

/// Nothing sorts before itself.
pub proof fn lemma_bytes_before_irreflexive(a: Seq<u8>)
    ensures
        !bytes_before(a, a),
    decreases a.len(),
{
    if a.len() > 0 {
        lemma_bytes_before_irreflexive(a.drop_first());
    }
}

/// Of two byte strings, at most one sorts before the other.
pub proof fn lemma_bytes_before_asymmetric(a: Seq<u8>, b: Seq<u8>)
    requires
        bytes_before(a, b),
    ensures
        !bytes_before(b, a),
    decreases a.len(),
{
    if a.len() > 0 && b.len() > 0 && a[0] == b[0] {
        lemma_bytes_before_asymmetric(a.drop_first(), b.drop_first());
    }
}

/// Of two different byte strings, one sorts before the other.
pub proof fn lemma_bytes_before_total(a: Seq<u8>, b: Seq<u8>)
    requires
        a != b,
    ensures
        bytes_before(a, b) || bytes_before(b, a),
    decreases a.len(),
{
    if a.len() == 0 && b.len() == 0 {
        assert(a =~= b);
    } else if a.len() > 0 && b.len() > 0 && a[0] == b[0] {
        assert(a =~= seq![a[0]] + a.drop_first());
        assert(b =~= seq![b[0]] + b.drop_first());
        lemma_bytes_before_total(a.drop_first(), b.drop_first());
    }
}

/// Sorting before is transitive.
pub proof fn lemma_bytes_before_transitive(a: Seq<u8>, b: Seq<u8>, c: Seq<u8>)
    requires
        bytes_before(a, b),
        bytes_before(b, c),
    ensures
        bytes_before(a, c),
    decreases a.len(),
{
    if a.len() > 0 && b.len() > 0 && c.len() > 0 && a[0] == b[0] && b[0] == c[0] {
        lemma_bytes_before_transitive(a.drop_first(), b.drop_first(), c.drop_first());
    }
}

/// Of two different addresses, exactly one sorts before the other; none before itself.
pub proof fn lemma_addr_order(x: Seq<char>, y: Seq<char>)
    ensures
        !addr_before(x, x),
        addr_before(x, y) ==> !addr_before(y, x),
        x != y ==> addr_before(x, y) || addr_before(y, x),
{
    let bx = vstd::utf8::encode_utf8(x);
    let by = vstd::utf8::encode_utf8(y);
    lemma_bytes_before_irreflexive(bx);
    if addr_before(x, y) {
        lemma_bytes_before_asymmetric(bx, by);
    }
    if x != y {
        vstd::utf8::encode_utf8_decode_utf8(x);
        vstd::utf8::encode_utf8_decode_utf8(y);
        lemma_bytes_before_total(bx, by);
    }
}

/// Addresses sort transitively.
pub proof fn lemma_addr_transitive(x: Seq<char>, y: Seq<char>, z: Seq<char>)
    requires
        addr_before(x, y),
        addr_before(y, z),
    ensures
        addr_before(x, z),
{
    lemma_bytes_before_transitive(vstd::utf8::encode_utf8(x), vstd::utf8::encode_utf8(y), vstd::utf8::encode_utf8(z));
}

/// Whether `a` sorts before `b` byte by byte.
pub fn bytes_before_exec(a: &[u8], b: &[u8]) -> (r: bool)
    ensures
        r == bytes_before(a@, b@),
{
    let mut i: usize = 0;
    assert(a@.skip(0) =~= a@ && b@.skip(0) =~= b@);
    while i < a.len() && i < b.len() && a[i] == b[i]
        invariant
            i <= a@.len(),
            i <= b@.len(),
            bytes_before(a@, b@) == bytes_before(a@.skip(i as int), b@.skip(i as int)),
        decreases a@.len() - i,
    {
        assert(a@.skip(i as int).drop_first() =~= a@.skip(i + 1));
        assert(b@.skip(i as int).drop_first() =~= b@.skip(i + 1));
        i = i + 1;
    }
    if i == a.len() {
        i < b.len()
    } else if i == b.len() {
        false
    } else {
        a[i] < b[i]
    }
}

} // verus!
