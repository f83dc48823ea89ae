//! The order in which the entries of a file stand: that of their keys' bytes.
use vstd::prelude::*;
use vstd::utf8::*;

verus! {

/// `a` comes before `b`: at the first place where they differ `a` has the smaller byte, or
/// `a` ends there.
pub open spec fn precedes(a: Seq<u8>, b: Seq<u8>) -> bool
    decreases a.len(),
{
    if b.len() == 0 {
        false
    } else if a.len() == 0 {
        true
    } else if a[0] != b[0] {
        a[0] < b[0]
    } else {
        precedes(a.drop_first(), b.drop_first())
    }
}

/// The key `a` comes before the key `b`: its UTF-8 bytes do.
pub open spec fn key_precedes(a: Seq<char>, b: Seq<char>) -> bool {
    precedes(encode_utf8(a), encode_utf8(b))
}

/// Nothing comes before itself.
pub proof fn lemma_precedes_irreflexive(a: Seq<u8>)
    ensures
        !precedes(a, a),
    decreases a.len(),
{
    if a.len() > 0 {
        lemma_precedes_irreflexive(a.drop_first());
    }
}

/// What comes before something comes before all that follows it.
pub proof fn lemma_precedes_transitive(a: Seq<u8>, b: Seq<u8>, c: Seq<u8>)
    requires
        precedes(a, b),
        precedes(b, c),
    ensures
        precedes(a, c),
    decreases a.len(),
{
    if a.len() > 0 && a[0] == b[0] && b[0] == c[0] {
        lemma_precedes_transitive(a.drop_first(), b.drop_first(), c.drop_first());
    }
}

/// Of two different sequences one comes before the other.
pub proof fn lemma_precedes_total(a: Seq<u8>, b: Seq<u8>)
    ensures
        a == b || precedes(a, b) || precedes(b, a),
    decreases a.len(),
{
    if a.len() == 0 && b.len() == 0 {
        assert(a =~= b);
    } else if a.len() > 0 && b.len() > 0 && a[0] == b[0] {
        lemma_precedes_total(a.drop_first(), b.drop_first());
        if a.drop_first() == b.drop_first() {
            assert(a =~= seq![a[0]] + a.drop_first());
            assert(b =~= seq![b[0]] + b.drop_first());
        }
    }
}

/// No key comes before itself.
pub proof fn lemma_key_irreflexive(a: Seq<char>)
    ensures
        !key_precedes(a, a),
{
    lemma_precedes_irreflexive(encode_utf8(a));
}

/// The order of keys is transitive.
pub proof fn lemma_key_transitive(a: Seq<char>, b: Seq<char>, c: Seq<char>)
    requires
        key_precedes(a, b),
        key_precedes(b, c),
    ensures
        key_precedes(a, c),
{
    lemma_precedes_transitive(encode_utf8(a), encode_utf8(b), encode_utf8(c));
}

/// Of two different keys one comes before the other, and never both.
pub proof fn lemma_key_total(a: Seq<char>, b: Seq<char>)
    ensures
        a == b || key_precedes(a, b) || key_precedes(b, a),
        !(key_precedes(a, b) && key_precedes(b, a)),
{
    lemma_precedes_total(encode_utf8(a), encode_utf8(b));
    if key_precedes(a, b) && key_precedes(b, a) {
        lemma_key_transitive(a, b, a);
        lemma_key_irreflexive(a);
    }
    encode_utf8_decode_utf8(a);
    encode_utf8_decode_utf8(b);
}

/// How one key stands to another.
#[derive(Debug, Clone, Copy, PartialEq, Eq, Structural)]
pub enum Place {
    Before,
    Same,
    After,
}

/// Where `a` stands to `b`.
pub(crate) fn place(a: &str, b: &str) -> (r: Place)
    ensures
        r == Place::Before <==> key_precedes(a@, b@),
        r == Place::Same <==> a@ == b@,
        r == Place::After <==> key_precedes(b@, a@),
{
    let x = a.as_bytes();
    let y = b.as_bytes();
    proof {
        lemma_key_total(a@, b@);
        lemma_key_irreflexive(a@);
        encode_utf8_decode_utf8(a@);
        encode_utf8_decode_utf8(b@);
        assert(x@.skip(0) =~= x@);
        assert(y@.skip(0) =~= y@);
    }
    let mut i: usize = 0;
    while i < x.len() && i < y.len()
        invariant
            i <= x@.len(),
            i <= y@.len(),
            x@ == encode_utf8(a@),
            y@ == encode_utf8(b@),
            x@.take(i as int) == y@.take(i as int),
            precedes(x@, y@) == precedes(x@.skip(i as int), y@.skip(i as int)),
            precedes(y@, x@) == precedes(y@.skip(i as int), x@.skip(i as int)),
            !(key_precedes(a@, b@) && key_precedes(b@, a@)),
            a@ == b@ ==> !key_precedes(a@, b@) && !key_precedes(b@, a@),
        decreases x@.len() - i,
    {
        if x[i] < y[i] {
            return Place::Before;
        }
        if y[i] < x[i] {
            return Place::After;
        }
        proof {
            let j = i as int;
            assert(x@.skip(j).drop_first() =~= x@.skip(j + 1));
            assert(y@.skip(j).drop_first() =~= y@.skip(j + 1));
            assert(x@.take(j + 1) =~= x@.take(j).push(x@[j]));
            assert(y@.take(j + 1) =~= y@.take(j).push(y@[j]));
        }
        i += 1;
    }
    if i < y.len() {
        Place::Before
    } else if i < x.len() {
        Place::After
    } else {
        proof {
            assert(x@.take(i as int) =~= x@);
            assert(y@.take(i as int) =~= y@);
        }
        Place::Same
    }
}

} // verus!
