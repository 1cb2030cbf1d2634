//! Byte-wise string comparison helpers and the lexicographic order they implement.
use vstd::prelude::*;
use vstd::string::*;
use vstd::utf8::*;

verus! {

/// Lexicographic three-way comparison of byte sequences: `-1`, `0` or `1`.
pub open spec fn lex_order(a: Seq<u8>, b: Seq<u8>) -> int
    decreases a.len(),
{
    if a.len() == 0 && b.len() == 0 {
        0
    } else if a.len() == 0 {
        -1
    } else if b.len() == 0 {
        1
    } else if a[0] < b[0] {
        -1
    } else if a[0] > b[0] {
        1
    } else {
        lex_order(a.drop_first(), b.drop_first())
    }
}

/// The order of strings: byte-wise on their UTF-8 encodings, as `str` orders them.
pub open spec fn str_order(a: Seq<char>, b: Seq<char>) -> int {
    lex_order(encode_utf8(a), encode_utf8(b))
}

/// `lex_order` is zero exactly on equal sequences.
pub proof fn lemma_lex_order_eq(a: Seq<u8>, b: Seq<u8>)
    ensures
        (lex_order(a, b) == 0) <==> (a == b),
        -1 <= lex_order(a, b) <= 1,
    decreases a.len(),
{
    if a.len() > 0 && b.len() > 0 && a[0] == b[0] {
        lemma_lex_order_eq(a.drop_first(), b.drop_first());
        if a.drop_first() == b.drop_first() {
            assert(a =~= seq![a[0]] + a.drop_first());
            assert(b =~= seq![b[0]] + b.drop_first());
        }
        if a == b {
            assert(a.drop_first() =~= b.drop_first());
        }
    } else if a.len() == 0 && b.len() == 0 {
        assert(a =~= b);
    }
}

/// Swapping the arguments negates the comparison.
pub proof fn lemma_lex_order_antisym(a: Seq<u8>, b: Seq<u8>)
    ensures
        lex_order(a, b) == -lex_order(b, a),
    decreases a.len(),
{
    if a.len() > 0 && b.len() > 0 && a[0] == b[0] {
        lemma_lex_order_antisym(a.drop_first(), b.drop_first());
    }
}

/// The strict order is transitive.
pub proof fn lemma_lex_order_trans(a: Seq<u8>, b: Seq<u8>, c: Seq<u8>)
    requires
        lex_order(a, b) < 0,
        lex_order(b, c) < 0,
    ensures
        lex_order(a, c) < 0,
    decreases a.len(),
{
    if a.len() > 0 && b.len() > 0 && c.len() > 0 && a[0] == b[0] && b[0] == c[0] {
        lemma_lex_order_trans(a.drop_first(), b.drop_first(), c.drop_first());
    }
}

/// Equal prefixes can be skipped.
pub proof fn lemma_lex_order_skip(a: Seq<u8>, b: Seq<u8>, i: int)
    requires
        0 <= i <= a.len(),
        i <= b.len(),
        a.subrange(0, i) == b.subrange(0, i),
    ensures
        lex_order(a, b) == lex_order(a.subrange(i, a.len() as int), b.subrange(i, b.len() as int)),
    decreases i,
{
    if i > 0 {
        assert(a[0] == a.subrange(0, i)[0]);
        assert(b[0] == b.subrange(0, i)[0]);
        assert(a.drop_first().subrange(0, i - 1) =~= b.drop_first().subrange(0, i - 1)) by {
            assert forall|k: int| 0 <= k < i - 1 implies a.drop_first()[k] == b.drop_first()[k] by {
                assert(a.subrange(0, i)[k + 1] == b.subrange(0, i)[k + 1]);
                assert(a.subrange(0, i)[k + 1] == a[k + 1]);
                assert(b.subrange(0, i)[k + 1] == b[k + 1]);
            }
        }
        lemma_lex_order_skip(a.drop_first(), b.drop_first(), i - 1);
        assert(a.drop_first().subrange(i - 1, a.len() - 1) =~= a.subrange(i, a.len() as int));
        assert(b.drop_first().subrange(i - 1, b.len() - 1) =~= b.subrange(i, b.len() as int));
    } else {
        assert(a.subrange(0, a.len() as int) =~= a);
        assert(b.subrange(0, b.len() as int) =~= b);
    }
}

/// Strings with the same encoding are the same string.
pub proof fn lemma_encode_injective(a: Seq<char>, b: Seq<char>)
    ensures
        (encode_utf8(a) == encode_utf8(b)) <==> (a == b),
{
    encode_utf8_decode_utf8(a);
    encode_utf8_decode_utf8(b);
}

/// `str_order` is a strict total order whose equality is string equality.
pub proof fn lemma_str_order_eq(a: Seq<char>, b: Seq<char>)
    ensures
        (str_order(a, b) == 0) <==> (a == b),
        -1 <= str_order(a, b) <= 1,
        str_order(a, b) == -str_order(b, a),
{
    lemma_lex_order_eq(encode_utf8(a), encode_utf8(b));
    lemma_lex_order_antisym(encode_utf8(a), encode_utf8(b));
    lemma_encode_injective(a, b);
}

/// Transitivity of the strict string order.
pub proof fn lemma_str_order_trans(a: Seq<char>, b: Seq<char>, c: Seq<char>)
    requires
        str_order(a, b) < 0,
        str_order(b, c) < 0,
    ensures
        str_order(a, c) < 0,
{
    lemma_lex_order_trans(encode_utf8(a), encode_utf8(b), encode_utf8(c));
}

/// Compares two strings byte by byte: `-1` when `lhs` sorts first, `1` when `rhs` does,
/// `0` when they are equal.
pub fn compare(lhs: &str, rhs: &str) -> (r: i8)
    ensures
        r as int == str_order(lhs@, rhs@),
{
    let lhs_bytes = lhs.as_bytes();
    let rhs_bytes = rhs.as_bytes();
    let lhs_len = lhs_bytes.len();
    let rhs_len = rhs_bytes.len();
    let min_len = if lhs_len < rhs_len { lhs_len } else { rhs_len };
    let ghost a = lhs_bytes@;
    let ghost b = rhs_bytes@;
    let mut i: usize = 0;
    while i < min_len
        invariant
            a == lhs_bytes@,
            b == rhs_bytes@,
            a == encode_utf8(lhs@),
            b == encode_utf8(rhs@),
            lhs_len == a.len(),
            rhs_len == b.len(),
            min_len <= lhs_len,
            min_len <= rhs_len,
            min_len == lhs_len || min_len == rhs_len,
            i <= min_len,
            a.subrange(0, i as int) == b.subrange(0, i as int),
        decreases min_len - i,
    {
        if lhs_bytes[i] < rhs_bytes[i] {
            proof {
                lemma_lex_order_skip(a, b, i as int);
                let sa = a.subrange(i as int, a.len() as int);
                let sb = b.subrange(i as int, b.len() as int);
                assert(sa[0] == a[i as int]);
                assert(sb[0] == b[i as int]);
            }
            return -1;
        }
        if lhs_bytes[i] > rhs_bytes[i] {
            proof {
                lemma_lex_order_skip(a, b, i as int);
                let sa = a.subrange(i as int, a.len() as int);
                let sb = b.subrange(i as int, b.len() as int);
                assert(sa[0] == a[i as int]);
                assert(sb[0] == b[i as int]);
            }
            return 1;
        }
        proof {
            assert(a.subrange(0, i + 1) =~= a.subrange(0, i as int).push(a[i as int]));
            assert(b.subrange(0, i + 1) =~= b.subrange(0, i as int).push(b[i as int]));
        }
        i = i + 1;
    }
    proof {
        lemma_lex_order_skip(a, b, i as int);
    }
    if lhs_len < rhs_len {
        -1
    } else if lhs_len > rhs_len {
        1
    } else {
        0
    }
}

/// The items of `a` followed by those of `b`.
pub fn slices_concat<T: Copy>(a: &[T], b: &[T]) -> (r: Vec<T>)
    requires
        a@.len() + b@.len() <= usize::MAX,
    ensures
        r@ == a@ + b@,
{
    let mut out: Vec<T> = Vec::with_capacity(a.len() + b.len());
    let mut i: usize = 0;
    while i < a.len()
        invariant
            i <= a@.len(),
            out@ == a@.subrange(0, i as int),
        decreases a@.len() - i,
    {
        out.push(a[i]);
        proof {
            assert(a@.subrange(0, i + 1) =~= a@.subrange(0, i as int).push(a@[i as int]));
        }
        i = i + 1;
    }
    let mut j: usize = 0;
    while j < b.len()
        invariant
            j <= b@.len(),
            out@ == a@ + b@.subrange(0, j as int),
        decreases b@.len() - j,
    {
        out.push(b[j]);
        proof {
            assert(b@.subrange(0, j + 1) =~= b@.subrange(0, j as int).push(b@[j as int]));
            assert(a@ + b@.subrange(0, j + 1) =~= (a@ + b@.subrange(0, j as int)).push(b@[j as int]));
        }
        j = j + 1;
    }
    proof {
        assert(a@.subrange(0, a@.len() as int) =~= a@);
        assert(b@.subrange(0, b@.len() as int) =~= b@);
    }
    out
}

/// Whether two strings are equal, compared byte by byte.
pub fn eq(lhs: &str, rhs: &str) -> (r: bool)
    ensures
        r == (lhs@ == rhs@),
{
    let lhs_bytes = lhs.as_bytes();
    let rhs_bytes = rhs.as_bytes();
    let lhs_len = lhs_bytes.len();
    let rhs_len = rhs_bytes.len();
    proof {
        lemma_encode_injective(lhs@, rhs@);
    }
    if lhs_len != rhs_len {
        return false;
    }
    let mut i: usize = 0;
    while i < lhs_len
        invariant
            lhs_len == lhs_bytes@.len(),
            rhs_len == rhs_bytes@.len(),
            lhs_len == rhs_len,
            lhs_bytes@ == encode_utf8(lhs@),
            rhs_bytes@ == encode_utf8(rhs@),
            i <= lhs_len,
            forall|k: int| 0 <= k < i ==> lhs_bytes@[k] == rhs_bytes@[k],
        decreases lhs_len - i,
    {
        if lhs_bytes[i] != rhs_bytes[i] {
            return false;
        }
        i = i + 1;
    }
    proof {
        assert(lhs_bytes@ =~= rhs_bytes@);
    }
    true
}

/// Whether the string `s` occurs in `a`.
pub open spec fn contains_str(a: Seq<&str>, s: Seq<char>) -> bool {
    exists|i: int| 0 <= i < a.len() && (#[trigger] a[i])@ == s
}

/// Whether every string of `b` occurs in `a`.
pub fn contains_all(a: &[&str], b: &[&str]) -> (r: bool)
    ensures
        r == (forall|j: int| 0 <= j < b@.len() ==> contains_str(a@, (#[trigger] b@[j])@)),
{
    let mut i: usize = 0;
    let mut j: usize = 0;
    while i < a.len() && j < b.len()
        invariant
            i <= a@.len(),
            j <= b@.len(),
            forall|jj: int| 0 <= jj < j ==> contains_str(a@, (#[trigger] b@[jj])@),
            j < b@.len() ==> forall|ii: int| 0 <= ii < i ==> (#[trigger] a@[ii])@ != b@[j as int]@,
        decreases b@.len() - j, a@.len() - i,
    {
        if eq(a[i], b[j]) {
            proof {
                assert(a@[i as int]@ == b@[j as int]@);
            }
            j = j + 1;
            i = 0;
        } else {
            i = i + 1;
        }
    }
    if j < b.len() {
        proof {
            assert(!contains_str(a@, b@[j as int]@));
        }
    }
    j == b.len()
}

} // verus!
