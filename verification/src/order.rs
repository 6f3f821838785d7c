use vstd::prelude::*;
use vstd::utf8::{encode_utf8, encode_utf8_decode_utf8};

verus! {

/// Lexicographic order on byte sequences, a proper prefix coming first: the
/// order in which Rust compares `str` and `String` values.
pub open spec fn bytes_lt(a: Seq<u8>, b: Seq<u8>) -> bool
    decreases a.len(),
{
    if a.len() == 0 {
        b.len() > 0
    } else if b.len() == 0 {
        false
    } else if a[0] != b[0] {
        a[0] < b[0]
    } else {
        bytes_lt(a.drop_first(), b.drop_first())
    }
}

/// The order of service names: that of their UTF-8 bytes.
pub open spec fn name_lt(a: Seq<char>, b: Seq<char>) -> bool {
    bytes_lt(encode_utf8(a), encode_utf8(b))
}

/// `a` and `b` agree on their first `i` bytes, and there `a` ends while `b`
/// goes on, or the byte of `a` is the smaller (as an unsigned value).
pub open spec fn first_difference_favours(a: Seq<u8>, b: Seq<u8>, i: int) -> bool {
    &&& 0 <= i <= a.len()
    &&& i <= b.len()
    &&& a.take(i) == b.take(i)
    &&& {
        ||| i == a.len() && i < b.len()
        ||| i < a.len() && i < b.len() && a[i] < b[i]
    }
}

/// `a` comes before `b` exactly when, at the first place where they differ,
/// `a` has ended or has the smaller byte: the order in which Rust compares
/// strings.
pub proof fn lemma_bytes_lt_first_difference(a: Seq<u8>, b: Seq<u8>)
    ensures
        bytes_lt(a, b) <==> exists|i: int| first_difference_favours(a, b, i),
        a.len() > 0 && b.len() > 0 && a[0] < b[0] ==> bytes_lt(a, b),
    decreases a.len(),
{
    if a.len() > 0 && b.len() > 0 && a[0] < b[0] {
        assert(a.take(0) =~= b.take(0));
        assert(first_difference_favours(a, b, 0));
    }
    if a.len() == 0 {
        if b.len() > 0 {
            assert(a.take(0) =~= b.take(0));
            assert(first_difference_favours(a, b, 0));
        }
    } else if b.len() == 0 {
    } else if a[0] != b[0] {
        if a[0] < b[0] {
            assert(a.take(0) =~= b.take(0));
            assert(first_difference_favours(a, b, 0));
        } else {
            assert forall|i: int| !first_difference_favours(a, b, i) by {
                if first_difference_favours(a, b, i) && i > 0 {
                    assert(a.take(i)[0] == b.take(i)[0]);
                }
            }
        }
    } else {
        let a1 = a.drop_first();
        let b1 = b.drop_first();
        lemma_bytes_lt_first_difference(a1, b1);
        if bytes_lt(a, b) {
            let i = choose|i: int| first_difference_favours(a1, b1, i);
            assert(a.take(i + 1) =~= seq![a[0]] + a1.take(i));
            assert(b.take(i + 1) =~= seq![b[0]] + b1.take(i));
            assert(first_difference_favours(a, b, i + 1));
        }
        if exists|i: int| first_difference_favours(a, b, i) {
            let i = choose|i: int| first_difference_favours(a, b, i);
            assert(i > 0);
            assert(a1.take(i - 1) =~= a.take(i).drop_first());
            assert(b1.take(i - 1) =~= b.take(i).drop_first());
            assert(first_difference_favours(a1, b1, i - 1));
        }
    }
}

/// No byte sequence comes before itself.
pub proof fn lemma_bytes_lt_irreflexive(a: Seq<u8>)
    ensures
        !bytes_lt(a, a),
    decreases a.len(),
{
    if a.len() > 0 {
        lemma_bytes_lt_irreflexive(a.drop_first());
    }
}

/// Of two byte sequences at most one comes first.
pub proof fn lemma_bytes_lt_asymmetric(a: Seq<u8>, b: Seq<u8>)
    ensures
        !(bytes_lt(a, b) && bytes_lt(b, a)),
    decreases a.len(),
{
    if a.len() > 0 && b.len() > 0 && a[0] == b[0] {
        lemma_bytes_lt_asymmetric(a.drop_first(), b.drop_first());
    }
}

/// The order on byte sequences is transitive.
pub proof fn lemma_bytes_lt_transitive(a: Seq<u8>, b: Seq<u8>, c: Seq<u8>)
    requires
        bytes_lt(a, b),
        bytes_lt(b, c),
    ensures
        bytes_lt(a, c),
    decreases a.len(),
{
    if a.len() > 0 && b.len() > 0 && c.len() > 0 && a[0] == b[0] && b[0] == c[0] {
        lemma_bytes_lt_transitive(a.drop_first(), b.drop_first(), c.drop_first());
    }
}

/// Of two different byte sequences one comes first.
pub proof fn lemma_bytes_lt_total(a: Seq<u8>, b: Seq<u8>)
    requires
        a != b,
    ensures
        bytes_lt(a, b) || bytes_lt(b, a),
    decreases a.len(),
{
    if a.len() > 0 && b.len() > 0 && a[0] == b[0] {
        if a.drop_first() == b.drop_first() {
            assert(a =~= seq![a[0]] + a.drop_first());
            assert(b =~= seq![b[0]] + b.drop_first());
        }
        lemma_bytes_lt_total(a.drop_first(), b.drop_first());
    } else if a.len() == 0 && b.len() == 0 {
        assert(a =~= b);
    }
}

/// Of two different names one comes first, and never both.
pub proof fn lemma_name_lt_total(a: Seq<char>, b: Seq<char>)
    requires
        a != b,
    ensures
        name_lt(a, b) || name_lt(b, a),
        !(name_lt(a, b) && name_lt(b, a)),
{
    encode_utf8_decode_utf8(a);
    encode_utf8_decode_utf8(b);
    lemma_bytes_lt_total(encode_utf8(a), encode_utf8(b));
    lemma_bytes_lt_asymmetric(encode_utf8(a), encode_utf8(b));
}

/// The order on names is transitive.
pub proof fn lemma_name_lt_transitive(a: Seq<char>, b: Seq<char>, c: Seq<char>)
    requires
        name_lt(a, b),
        name_lt(b, c),
    ensures
        name_lt(a, c),
{
    lemma_bytes_lt_transitive(encode_utf8(a), encode_utf8(b), encode_utf8(c));
}

/// No name comes before itself.
pub proof fn lemma_name_lt_irreflexive(a: Seq<char>)
    ensures
        !name_lt(a, a),
{
    lemma_bytes_lt_irreflexive(encode_utf8(a));
}

/// Compares two strings byte by byte, as `<` on `str` does.
pub fn str_lt(a: &str, b: &str) -> (r: bool)
    ensures
        r == name_lt(a@, b@),
{
    let x = a.as_bytes();
    let y = b.as_bytes();
    let mut i: usize = 0;
    assert(x@.skip(0) =~= x@);
    assert(y@.skip(0) =~= y@);
    while i < x.len() && i < y.len()
        invariant
            i <= x@.len(),
            i <= y@.len(),
            x@ == encode_utf8(a@),
            y@ == encode_utf8(b@),
            bytes_lt(x@, y@) == bytes_lt(x@.skip(i as int), y@.skip(i as int)),
        decreases x@.len() - i,
    {
        if x[i] != y[i] {
            return x[i] < y[i];
        }
        assert(x@.skip(i as int).drop_first() =~= x@.skip(i + 1));
        assert(y@.skip(i as int).drop_first() =~= y@.skip(i + 1));
        i = i + 1;
    }
    i < y.len()
}

/// Whether `names` is in strictly increasing order.
pub open spec fn strictly_sorted(names: Seq<Seq<char>>) -> bool {
    forall|i: int, j: int| 0 <= i < j < names.len() ==> name_lt(#[trigger] names[i], #[trigger] names[j])
}

/// A sorted copy of a list of distinct names, in the order of `str`.
pub fn sort_names(keys: &Vec<String>) -> (r: Vec<String>)
    requires
        keys@.map_values(|s: String| s@).no_duplicates(),
    ensures
        r.len() == keys.len(),
        r@.map_values(|s: String| s@).to_set() == keys@.map_values(|s: String| s@).to_set(),
        strictly_sorted(r@.map_values(|s: String| s@)),
{
    let ghost kn = keys@.map_values(|s: String| s@);
    let mut r: Vec<String> = Vec::new();
    let n = keys.len();
    for i in 0..n
        invariant
            n == keys.len(),
            kn == keys@.map_values(|s: String| s@),
            kn.no_duplicates(),
            r.len() == i,
            r@.map_values(|s: String| s@).to_set() == kn.take(i as int).to_set(),
            strictly_sorted(r@.map_values(|s: String| s@)),
    {
        let key = &keys[i];
        let ghost rn = r@.map_values(|s: String| s@);
        assert(kn[i as int] == key@);
        assert(!rn.contains(key@)) by {
            if rn.contains(key@) {
                assert(rn.to_set().contains(key@));
                let j = choose|j: int| 0 <= j < i && kn.take(i as int)[j] == key@;
                assert(kn[j] == kn[i as int]);
            }
        }
        let mut p: usize = 0;
        while p < r.len() && !str_lt(key.as_str(), r[p].as_str())
            invariant
                p <= r.len(),
                rn == r@.map_values(|s: String| s@),
                !rn.contains(key@),
                strictly_sorted(rn),
                forall|j: int| 0 <= j < p ==> name_lt(#[trigger] rn[j], key@),
            decreases r.len() - p,
        {
            proof {
                assert(rn[p as int] == r@[p as int]@);
                lemma_name_lt_total(key@, rn[p as int]);
            }
            p = p + 1;
        }
        proof {
            if p < r.len() {
                assert(rn[p as int] == r@[p as int]@);
            }
        }
        r.insert(p, key.clone());
        proof {
            let rn2 = r@.map_values(|s: String| s@);
            assert(rn2 =~= rn.insert(p as int, key@));
            assert forall|a: int, b: int| 0 <= a < b < rn2.len() implies name_lt(#[trigger] rn2[a], #[trigger] rn2[b]) by {
                if b < p {
                } else if b == p {
                } else if a < p {
                    lemma_name_lt_transitive(rn2[a], key@, rn[p as int]);
                    if b - 1 > p {
                        lemma_name_lt_transitive(rn2[a], rn[p as int], rn2[b]);
                    }
                } else if a == p {
                    if b - 1 > p {
                        lemma_name_lt_transitive(key@, rn[p as int], rn2[b]);
                    }
                }
            }
            assert(kn.take(i + 1) =~= kn.take(i as int).push(key@));
            assert(rn2.to_set() =~= kn.take(i + 1).to_set()) by {
                let t0 = kn.take(i as int);
                let t1 = kn.take(i + 1);
                assert forall|x: Seq<char>| rn2.contains(x) <==> t1.contains(x) by {
                    if rn2.contains(x) {
                        let j = choose|j: int| 0 <= j < rn2.len() && rn2[j] == x;
                        if j != p {
                            let jj = if j < p { j } else { j - 1 };
                            assert(rn[jj] == x);
                            assert(rn.to_set().contains(x));
                            assert(t0.to_set().contains(x));
                            let q = choose|q: int| 0 <= q < t0.len() && t0[q] == x;
                            assert(t1[q] == x);
                        } else {
                            assert(t1[i as int] == x);
                        }
                    }
                    if t1.contains(x) {
                        let j = choose|j: int| 0 <= j < t1.len() && t1[j] == x;
                        if j < i {
                            assert(t0[j] == x);
                            assert(t0.to_set().contains(x));
                            assert(rn.to_set().contains(x));
                            let q = choose|q: int| 0 <= q < rn.len() && rn[q] == x;
                            if q < p {
                                assert(rn2[q] == x);
                            } else {
                                assert(rn2[q + 1] == x);
                            }
                        } else {
                            assert(rn2[p as int] == x);
                        }
                    }
                }
            }
        }
    }
    proof {
        assert(kn.take(n as int) =~= kn);
    }
    r
}

} // verus!
