//! Ordering archive entries by name, as a `String`-keyed ordered map orders
//! its keys: byte-wise over the names' UTF-8 encodings.

use vstd::prelude::*;

verus! {

/// `a` comes strictly before `b` in byte-wise lexicographic order (a proper
/// prefix comes first).
pub open spec fn lex_less(a: Seq<u8>, b: Seq<u8>) -> bool
    decreases a.len(),
{
    if a.len() == 0 {
        b.len() > 0
    } else if b.len() == 0 {
        false
    } else if a[0] != b[0] {
        a[0] < b[0]
    } else {
        lex_less(a.drop_first(), b.drop_first())
    }
}

/// The bytes by which an entry name is ordered: its UTF-8 encoding.
pub open spec fn name_key(name: Seq<char>) -> Seq<u8> {
    vstd::utf8::encode_utf8(name)
}

/// Entry names strictly ascending.
pub open spec fn names_ascending(shapes: Seq<(String, Vec<u8>)>) -> bool {
    forall|i: int, j: int|
        0 <= i < j < shapes.len() ==> lex_less(name_key(#[trigger] shapes[i].0@), name_key(#[trigger] shapes[j].0@))
}

pub proof fn lemma_lex_irreflexive(a: Seq<u8>)
    ensures
        !lex_less(a, a),
    decreases a.len(),
{
    if a.len() > 0 {
        lemma_lex_irreflexive(a.drop_first());
    }
}

pub proof fn lemma_lex_transitive(a: Seq<u8>, b: Seq<u8>, c: Seq<u8>)
    requires
        lex_less(a, b),
        lex_less(b, c),
    ensures
        lex_less(a, c),
    decreases a.len(),
{
    if a.len() > 0 && b.len() > 0 && c.len() > 0 && a[0] == b[0] && b[0] == c[0] {
        lemma_lex_transitive(a.drop_first(), b.drop_first(), c.drop_first());
    }
}

pub proof fn lemma_lex_total(a: Seq<u8>, b: Seq<u8>)
    requires
        a != b,
    ensures
        lex_less(a, b) || lex_less(b, a),
    decreases a.len(),
{
    if a.len() == 0 {
        assert(b.len() > 0) by {
            if b.len() == 0 {
                assert(a =~= b);
            }
        }
    } else if b.len() > 0 && a[0] == b[0] {
        assert(a.drop_first() != b.drop_first()) by {
            if a.drop_first() == b.drop_first() {
                assert(a =~= seq![a[0]] + a.drop_first());
                assert(b =~= seq![b[0]] + b.drop_first());
            }
        }
        lemma_lex_total(a.drop_first(), b.drop_first());
    }
}

/// Different names have different keys.
proof fn lemma_name_key_injective(a: Seq<char>, b: Seq<char>)
    requires
        a != b,
    ensures
        name_key(a) != name_key(b),
{
    vstd::utf8::encode_utf8_decode_utf8(a);
    vstd::utf8::encode_utf8_decode_utf8(b);
}

/// Whether `a` comes strictly before `b` byte-wise.
pub fn bytes_less(a: &[u8], b: &[u8]) -> (r: bool)
    ensures
        r == lex_less(a@, b@),
{
    let mut i: usize = 0;
    assert(a@.skip(0) =~= a@ && b@.skip(0) =~= b@);
    while i < a.len() && i < b.len()
        invariant
            i <= a@.len(),
            i <= b@.len(),
            lex_less(a@, b@) == lex_less(a@.skip(i as int), b@.skip(i as int)),
        decreases a@.len() - i,
    {
        let ghost sa = a@.skip(i as int);
        let ghost sb = b@.skip(i as int);
        assert(sa[0] == a@[i as int] && sb[0] == b@[i as int]);
        if a[i] != b[i] {
            return a[i] < b[i];
        }
        assert(sa.drop_first() =~= a@.skip(i + 1));
        assert(sb.drop_first() =~= b@.skip(i + 1));
        i = i + 1;
    }
    b.len() > i
}

/// The key bytes of an entry name.
fn key_of(name: &String) -> (k: &[u8])
    ensures
        k@ == name_key(name@),
{
    name.as_str().as_bytes()
}

/// Inserts `x` into the name-ordered `r` at its place.
fn insert_by_name(r: &mut Vec<(String, Vec<u8>)>, x: (String, Vec<u8>))
    requires
        names_ascending(old(r)@),
        forall|q: int| 0 <= q < old(r)@.len() ==> name_key(#[trigger] old(r)@[q].0@) != name_key(x.0@),
    ensures
        names_ascending(final(r)@),
        exists|p: int| 0 <= p <= old(r)@.len() && final(r)@ == old(r)@.insert(p, x),
{
    let ghost xk = name_key(x.0@);
    let mut p: usize = 0;
    while p < r.len() && !bytes_less(key_of(&x.0), key_of(&r[p].0))
        invariant
            p <= r@.len(),
            xk == name_key(x.0@),
            forall|q: int| 0 <= q < p ==> !lex_less(xk, name_key(#[trigger] r@[q].0@)),
        decreases r@.len() - p,
    {
        p = p + 1;
    }
    let ghost before = r@;
    proof {
        assert forall|q: int| 0 <= q < p implies lex_less(name_key(#[trigger] before[q].0@), xk) by {
            lemma_lex_total(name_key(before[q].0@), xk);
        }
    }
    r.insert(p, x);
    proof {
        assert forall|i: int, j: int| 0 <= i < j < r@.len() implies lex_less(
            name_key(#[trigger] r@[i].0@),
            name_key(#[trigger] r@[j].0@),
        ) by {
            if j < p {
                assert(r@[i] == before[i] && r@[j] == before[j]);
            } else if j == p {
                assert(r@[i] == before[i]);
            } else if i == p {
                assert(r@[j] == before[j - 1]);
                if j - 1 > p {
                    assert(lex_less(name_key(before[p as int].0@), name_key(before[j - 1].0@)));
                    lemma_lex_transitive(xk, name_key(before[p as int].0@), name_key(before[j - 1].0@));
                }
            } else if i < p {
                assert(r@[i] == before[i] && r@[j] == before[j - 1]);
            } else {
                assert(r@[i] == before[i - 1] && r@[j] == before[j - 1]);
            }
        }
    }
}

/// `x` is an element of `s`.
#[verifier::opaque]
pub open spec fn occurs_in<T>(x: T, s: Seq<T>) -> bool {
    exists|k: int| 0 <= k < s.len() && s[k] == x
}

/// Inserting the element at `lo` into a sequence whose elements are exactly
/// those of `orig` after `lo` gives one whose elements are exactly those
/// from `lo` on.
proof fn lemma_insert_keeps_origin<T>(before: Seq<T>, after: Seq<T>, x: T, p: int, orig: Seq<T>, lo: int)
    requires
        0 <= p <= before.len(),
        after == before.insert(p, x),
        0 <= lo < orig.len(),
        x == orig[lo],
        forall|k: int| 0 <= k < before.len() ==> occurs_in(#[trigger] before[k], orig.subrange(lo + 1, orig.len() as int)),
        forall|j: int| lo + 1 <= j < orig.len() ==> occurs_in(#[trigger] orig[j], before),
    ensures
        forall|k: int| 0 <= k < after.len() ==> occurs_in(#[trigger] after[k], orig.subrange(lo, orig.len() as int)),
        forall|j: int| lo <= j < orig.len() ==> occurs_in(#[trigger] orig[j], after),
{
    reveal(occurs_in);
    let tail = orig.subrange(lo + 1, orig.len() as int);
    let whole = orig.subrange(lo, orig.len() as int);
    assert forall|k: int| 0 <= k < after.len() implies occurs_in(#[trigger] after[k], whole) by {
        if k == p {
            assert(whole[0] == after[k]);
        } else {
            let b = if k < p { k } else { k - 1 };
            assert(after[k] == before[b]);
            assert(occurs_in(before[b], tail));
            let j = choose|j: int| 0 <= j < tail.len() && tail[j] == before[b];
            assert(whole[j + 1] == tail[j]);
        }
    }
    assert forall|j: int| lo <= j < orig.len() implies occurs_in(#[trigger] orig[j], after) by {
        if j == lo {
            assert(after[p] == orig[j]);
        } else {
            assert(occurs_in(orig[j], before));
            let k = choose|k: int| 0 <= k < before.len() && before[k] == orig[j];
            if k < p {
                assert(after[k] == before[k]);
            } else {
                assert(after[k + 1] == before[k]);
            }
        }
    }
}

/// `items` ordered by name (names distinct): the same elements, names
/// strictly ascending.
#[verifier::rlimit(50)]
pub fn sort_by_name(items: Vec<(String, Vec<u8>)>) -> (r: Vec<(String, Vec<u8>)>)
    requires
        forall|i: int, j: int| 0 <= i < j < items@.len() ==> items@[i].0@ != items@[j].0@,
    ensures
        r@.len() == items@.len(),
        forall|k: int| 0 <= k < r@.len() ==> occurs_in(#[trigger] r@[k], items@),
        forall|j: int| 0 <= j < items@.len() ==> occurs_in(#[trigger] items@[j], r@),
        names_ascending(r@),
{
    let ghost orig = items@;
    let mut v = items;
    let mut r: Vec<(String, Vec<u8>)> = Vec::new();
    assert(orig.take(orig.len() as int) =~= orig);
    while v.len() > 0
        invariant
            orig.len() == r@.len() + v@.len(),
            v@ == orig.take(v@.len() as int),
            forall|i: int, j: int| 0 <= i < j < orig.len() ==> orig[i].0@ != orig[j].0@,
            names_ascending(r@),
            forall|k: int| 0 <= k < r@.len() ==> occurs_in(#[trigger] r@[k], orig.subrange(v@.len() as int, orig.len() as int)),
            forall|j: int| v@.len() <= j < orig.len() ==> occurs_in(#[trigger] orig[j], r@),
        decreases v@.len(),
    {
        let ghost last = v@.len() - 1;
        let x = v.pop().unwrap();
        assert(x == orig[last]);
        assert(v@ =~= orig.take(last));
        proof {
            assert forall|q: int| 0 <= q < r@.len() implies name_key(#[trigger] r@[q].0@) != name_key(x.0@) by {
                assert(occurs_in(r@[q], orig.subrange(last + 1, orig.len() as int)));
                reveal(occurs_in);
                let tail = orig.subrange(last + 1, orig.len() as int);
                let j = choose|j: int| 0 <= j < tail.len() && tail[j] == r@[q];
                assert(tail[j] == orig[last + 1 + j]);
                lemma_name_key_injective(r@[q].0@, x.0@);
            }
        }
        let ghost before = r@;
        insert_by_name(&mut r, x);
        proof {
            let p = choose|p: int| 0 <= p <= before.len() && r@ == before.insert(p, x);
            lemma_insert_keeps_origin(before, r@, x, p, orig, last);
        }
    }
    assert(orig.subrange(0, orig.len() as int) =~= orig);
    r
}

} // verus!
