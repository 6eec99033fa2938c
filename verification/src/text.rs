//! Character-level helpers on string slices.

use vstd::prelude::*;
use vstd::string::StringSliceAdditionalSpecFns;
use vstd::utf8::encode_utf8;

verus! {

/// The characters of `s`, in order.
pub fn chars_of(s: &str) -> (v: Vec<char>)
    ensures
        v@ == s@,
{
    broadcast use vstd::string::group_string_axioms;

    let mut v: Vec<char> = Vec::new();
    for c in it: s.chars()
        invariant
            v@ == it.seq().take(it.index()),
            it.seq() == s@,
    {
        v.push(c);
    }
    v
}

/// Whether `a` and `b` hold the same characters.
pub fn str_equals(a: &str, b: &str) -> (r: bool)
    ensures
        r == (a@ == b@),
{
    let x = chars_of(a);
    let y = chars_of(b);
    if x.len() != y.len() {
        return false;
    }
    let mut i: usize = 0;
    while i < x.len()
        invariant
            x@ == a@,
            y@ == b@,
            x@.len() == y@.len(),
            i <= x@.len(),
            forall|j: int| 0 <= j < i ==> a@[j] == b@[j],
        decreases x@.len() - i,
    {
        if x[i] != y[i] {
            return false;
        }
        i = i + 1;
    }
    proof {
        assert(a@ =~= b@);
    }
    true
}

/// The length in bytes of the UTF-8 encoding of the first `i` characters of `s`.
pub open spec fn byte_len_upto(s: Seq<char>, i: int) -> int {
    encode_utf8(s.subrange(0, i)).len() as int
}

/// The encoding of two texts one after the other is the encoding of the first followed by
/// that of the second.
pub proof fn lemma_encode_concat(a: Seq<char>, b: Seq<char>)
    ensures
        encode_utf8(a + b) == encode_utf8(a) + encode_utf8(b),
    decreases a.len(),
{
    if a.len() == 0 {
        assert(a + b =~= b);
        assert(encode_utf8(a) + encode_utf8(b) =~= encode_utf8(b));
    } else {
        let t = a.drop_first();
        lemma_encode_concat(t, b);
        assert((a + b).drop_first() =~= t + b);
        assert((a + b)[0] == a[0]);
        assert(encode_utf8(a + b) =~= encode_utf8(a) + encode_utf8(b));
    }
}

/// One more character adds its own encoding, at least one byte, to the byte length.
pub proof fn lemma_byte_len_step(s: Seq<char>, i: int)
    requires
        0 <= i < s.len(),
    ensures
        byte_len_upto(s, i + 1) == byte_len_upto(s, i) + encode_utf8(s.subrange(i, i + 1)).len(),
        encode_utf8(s.subrange(i, i + 1)).len() >= 1,
{
    lemma_encode_concat(s.subrange(0, i), s.subrange(i, i + 1));
    assert(s.subrange(0, i) + s.subrange(i, i + 1) =~= s.subrange(0, i + 1));
    let one = s.subrange(i, i + 1);
    assert(one.drop_first() =~= Seq::<char>::empty());
    assert(encode_utf8(one) == vstd::utf8::encode_scalar(one[0] as u32) + encode_utf8(one.drop_first()));
}

/// The byte length grows strictly with the number of characters.
pub proof fn lemma_byte_len_grows(s: Seq<char>, i: int, j: int)
    requires
        0 <= i < j <= s.len(),
    ensures
        byte_len_upto(s, i) < byte_len_upto(s, j),
    decreases j - i,
{
    lemma_byte_len_step(s, j - 1);
    if i < j - 1 {
        lemma_byte_len_grows(s, i, j - 1);
    }
}

/// Each character takes at least one byte.
pub proof fn lemma_byte_len_at_least(s: Seq<char>, i: int)
    requires
        0 <= i <= s.len(),
    ensures
        byte_len_upto(s, i) >= i,
    decreases i,
{
    if i > 0 {
        lemma_byte_len_step(s, i - 1);
        lemma_byte_len_at_least(s, i - 1);
    } else {
        assert(s.subrange(0, 0) =~= Seq::<char>::empty());
    }
}

/// The number of characters of `s` whose encoding takes the first `b` bytes, where `t` is
/// that number.
pub fn char_index_of(s: &str, b: usize, Ghost(t): Ghost<int>) -> (i: usize)
    requires
        0 <= t <= s@.len(),
        b == byte_len_upto(s@, t),
    ensures
        i == t,
{
    proof {
        lemma_byte_len_at_least(s@, t);
    }
    let mut i: usize = 0;
    let mut count: usize = 0;
    while count < b
        invariant
            0 <= t <= s@.len(),
            b == byte_len_upto(s@, t),
            t <= b,
            i <= t,
            count == byte_len_upto(s@, i as int),
        decreases t - i,
    {
        proof {
            lemma_byte_len_step(s@, i as int);
            if i + 1 < t {
                lemma_byte_len_grows(s@, i + 1, t);
            }
        }
        let w = s.substring_char(i, i + 1).as_bytes().len();
        count = count + w;
        i = i + 1;
    }
    proof {
        if i < t {
            lemma_byte_len_grows(s@, i as int, t);
        }
    }
    i
}

/// `a` comes before `b` in the order of strings: character by character, by code point, a
/// proper prefix first. (UTF-8 keeps code point order, so this is the byte order too.)
pub open spec fn seq_less(a: Seq<char>, b: Seq<char>) -> bool
    decreases a.len(),
{
    if a.len() == 0 {
        b.len() > 0
    } else if b.len() == 0 {
        false
    } else if a[0] != b[0] {
        a[0] < b[0]
    } else {
        seq_less(a.drop_first(), b.drop_first())
    }
}

/// No text comes before itself.
pub proof fn lemma_less_irreflexive(a: Seq<char>)
    ensures
        !seq_less(a, a),
    decreases a.len(),
{
    if a.len() > 0 {
        lemma_less_irreflexive(a.drop_first());
    }
}

/// The order of strings is transitive.
pub proof fn lemma_less_transitive(a: Seq<char>, b: Seq<char>, c: Seq<char>)
    requires
        seq_less(a, b),
        seq_less(b, c),
    ensures
        seq_less(a, c),
    decreases a.len(),
{
    if a.len() > 0 && a[0] == b[0] && b[0] == c[0] {
        lemma_less_transitive(a.drop_first(), b.drop_first(), c.drop_first());
    }
}

/// Of two different texts, one comes before the other.
pub proof fn lemma_less_total(a: Seq<char>, b: Seq<char>)
    requires
        a != b,
    ensures
        seq_less(a, b) || seq_less(b, a),
    decreases a.len(),
{
    if a.len() > 0 && b.len() > 0 && a[0] == b[0] {
        if a.drop_first() == b.drop_first() {
            assert(a.drop_first().len() == b.drop_first().len());
            assert(a.len() == b.len());
            assert(a =~= b) by {
                assert forall|i: int| 0 <= i < a.len() implies a[i] == b[i] by {
                    if i > 0 {
                        assert(a[i] == a.drop_first()[i - 1]);
                        assert(b[i] == b.drop_first()[i - 1]);
                    }
                }
            }
        } else {
            lemma_less_total(a.drop_first(), b.drop_first());
        }
    } else if a.len() == 0 && b.len() == 0 {
        assert(a =~= b);
    }
}

/// Whether `a` comes before `b` in the order of strings.
pub fn str_less(a: &str, b: &str) -> (r: bool)
    ensures
        r == seq_less(a@, b@),
{
    let x = chars_of(a);
    let y = chars_of(b);
    let mut i: usize = 0;
    proof {
        assert(a@.subrange(0, a@.len() as int) =~= a@);
        assert(b@.subrange(0, b@.len() as int) =~= b@);
    }
    while i < x.len() && i < y.len() && x[i] == y[i]
        invariant
            x@ == a@,
            y@ == b@,
            i <= x@.len(),
            i <= y@.len(),
            seq_less(a@, b@) == seq_less(
                a@.subrange(i as int, a@.len() as int),
                b@.subrange(i as int, b@.len() as int),
            ),
        decreases x@.len() - i,
    {
        proof {
            let sa = a@.subrange(i as int, a@.len() as int);
            let sb = b@.subrange(i as int, b@.len() as int);
            assert(sa.drop_first() =~= a@.subrange(i + 1, a@.len() as int));
            assert(sb.drop_first() =~= b@.subrange(i + 1, b@.len() as int));
        }
        i = i + 1;
    }
    if i == x.len() {
        i < y.len()
    } else if i == y.len() {
        false
    } else {
        x[i] < y[i]
    }
}

} // verus!
