//! Text helpers: character views of strings, building strings from characters,
//! and the lexicographic order on strings that Rust's `Ord` for `String` uses.

use vstd::prelude::*;

verus! {

broadcast use vstd::string::group_string_axioms;

/// The characters of `s`, in order.
pub fn chars_of(s: &str) -> (v: Vec<char>)
    ensures
        v@ == s@,
{
    let mut v: Vec<char> = Vec::new();
    for c in it: s.chars()
        invariant
            it.seq() == s@,
            v@ == it.seq().take(it.index() as int),
    {
        v.push(c);
    }
    v
}

/// Appends one character to a string.
///
/// Trusted: calls `String::push`, which std documents as appending the given
/// `char` to the end of the string.
#[verifier::external_body]
pub(crate) fn push_char(s: &mut String, c: char)
    ensures
        final(s)@ == old(s)@.push(c),
{
    s.push(c);
}

/// Appends all characters of `chars` to `s`.
pub fn push_chars(s: &mut String, chars: &[char])
    ensures
        final(s)@ == old(s)@ + chars@,
{
    let mut i: usize = 0;
    while i < chars.len()
        invariant
            i <= chars@.len(),
            s@ == old(s)@ + chars@.take(i as int),
        decreases chars@.len() - i,
    {
        push_char(s, chars[i]);
        proof {
            assert(chars@.take(i as int + 1) =~= chars@.take(i as int).push(chars@[i as int]));
        }
        i += 1;
    }
    proof {
        assert(chars@.take(chars@.len() as int) =~= chars@);
    }
}

/// Appends the string `t` to `s`.
pub fn push_str(s: &mut String, t: &str)
    ensures
        final(s)@ == old(s)@ + t@,
{
    let cs = chars_of(t);
    push_chars(s, cs.as_slice());
}

/// A string holding exactly the given characters.
pub fn string_from_chars(chars: &[char]) -> (s: String)
    ensures
        s@ == chars@,
{
    let mut s = String::new();
    push_chars(&mut s, chars);
    proof {
        assert(Seq::<char>::empty() + chars@ =~= chars@);
    }
    s
}

/// A copy of `s`.
pub fn copy_str(s: &str) -> (r: String)
    ensures
        r@ == s@,
{
    let cs = chars_of(s);
    string_from_chars(cs.as_slice())
}

/// Strict lexicographic order on character sequences, comparing characters by
/// code point. This is the order of Rust's `Ord` on `String` and `str`
/// (UTF-8 byte order coincides with code-point order).
pub open spec fn seq_lt(a: Seq<char>, b: Seq<char>) -> bool
    decreases a.len(),
{
    if a.len() == 0 {
        b.len() > 0
    } else if b.len() == 0 {
        false
    } else if a[0] != b[0] {
        (a[0] as int) < (b[0] as int)
    } else {
        seq_lt(a.drop_first(), b.drop_first())
    }
}

pub proof fn lemma_seq_lt_irreflexive(a: Seq<char>)
    ensures
        !seq_lt(a, a),
    decreases a.len(),
{
    if a.len() > 0 {
        lemma_seq_lt_irreflexive(a.drop_first());
    }
}

pub proof fn lemma_seq_lt_asymmetric(a: Seq<char>, b: Seq<char>)
    ensures
        !(seq_lt(a, b) && seq_lt(b, a)),
    decreases a.len(),
{
    if a.len() > 0 && b.len() > 0 && a[0] == b[0] {
        lemma_seq_lt_asymmetric(a.drop_first(), b.drop_first());
    }
}

pub proof fn lemma_seq_lt_transitive(a: Seq<char>, b: Seq<char>, c: Seq<char>)
    requires
        seq_lt(a, b),
        seq_lt(b, c),
    ensures
        seq_lt(a, c),
    decreases a.len(),
{
    if a.len() > 0 && b.len() > 0 && c.len() > 0 && a[0] == b[0] && b[0] == c[0] {
        lemma_seq_lt_transitive(a.drop_first(), b.drop_first(), c.drop_first());
    }
}

pub proof fn lemma_seq_lt_total(a: Seq<char>, b: Seq<char>)
    ensures
        a == b || seq_lt(a, b) || seq_lt(b, a),
    decreases a.len(),
{
    if a.len() > 0 && b.len() > 0 {
        if a[0] == b[0] {
            lemma_seq_lt_total(a.drop_first(), b.drop_first());
            if a.drop_first() == b.drop_first() {
                assert(a =~= seq![a[0]] + a.drop_first());
                assert(b =~= seq![b[0]] + b.drop_first());
            }
        } else {
            assert((a[0] as int) != (b[0] as int));
        }
    } else if a.len() == 0 && b.len() == 0 {
        assert(a =~= b);
    }
}

/// The result of comparing two strings.
#[derive(PartialEq, Eq, Structural, Clone, Copy, Debug)]
pub enum TextOrder {
    Less,
    Equal,
    Greater,
}

/// Compares two strings in the order `seq_lt`.
pub fn compare_str(a: &str, b: &str) -> (r: TextOrder)
    ensures
        r == TextOrder::Less <==> seq_lt(a@, b@),
        r == TextOrder::Equal <==> a@ == b@,
        r == TextOrder::Greater <==> seq_lt(b@, a@),
{
    let x = chars_of(a);
    let y = chars_of(b);
    compare_chars(x.as_slice(), y.as_slice())
}

/// Compares two character sequences in the order `seq_lt`.
pub fn compare_chars(x: &[char], y: &[char]) -> (r: TextOrder)
    ensures
        r == TextOrder::Less <==> seq_lt(x@, y@),
        r == TextOrder::Equal <==> x@ == y@,
        r == TextOrder::Greater <==> seq_lt(y@, x@),
{
    proof {
        lemma_seq_lt_irreflexive(x@);
        lemma_seq_lt_asymmetric(x@, y@);
        lemma_seq_lt_total(x@, y@);
    }
    proof {
        assert(x@.skip(0) =~= x@);
        assert(y@.skip(0) =~= y@);
        assert(x@.take(0) =~= y@.take(0));
    }
    let mut i: usize = 0;
    while i < x.len() && i < y.len()
        invariant
            i <= x@.len(),
            i <= y@.len(),
            x@.take(i as int) == y@.take(i as int),
            seq_lt(x@, y@) == seq_lt(x@.skip(i as int), y@.skip(i as int)),
            seq_lt(y@, x@) == seq_lt(y@.skip(i as int), x@.skip(i as int)),
        decreases x@.len() - i,
    {
        let cx = x[i];
        let cy = y[i];
        proof {
            assert(x@.skip(i as int)[0] == cx);
            assert(y@.skip(i as int)[0] == cy);
        }
        if cx != cy {
            proof {
                assert((cx as int) != (cy as int));
            }
            if cx < cy {
                return TextOrder::Less;
            } else {
                return TextOrder::Greater;
            }
        }
        proof {
            assert(x@.skip(i as int).drop_first() =~= x@.skip(i as int + 1));
            assert(y@.skip(i as int).drop_first() =~= y@.skip(i as int + 1));
            assert(x@.take(i as int + 1) =~= x@.take(i as int).push(cx));
            assert(y@.take(i as int + 1) =~= y@.take(i as int).push(cy));
        }
        i += 1;
    }
    if x.len() == y.len() {
        proof {
            assert(x@ =~= x@.take(i as int));
            assert(y@ =~= y@.take(i as int));
        }
        TextOrder::Equal
    } else if i == x.len() {
        proof {
            assert(x@.skip(i as int).len() == 0);
        }
        TextOrder::Less
    } else {
        proof {
            assert(y@.skip(i as int).len() == 0);
        }
        TextOrder::Greater
    }
}

/// All elements are pairwise strictly increasing in `seq_lt`.
pub open spec fn strictly_sorted(s: Seq<Seq<char>>) -> bool {
    forall|i: int, j: int| 0 <= i < j < s.len() ==> seq_lt(#[trigger] s[i], #[trigger] s[j])
}

/// The character views of a vector of strings.
pub open spec fn views_of(v: Seq<String>) -> Seq<Seq<char>> {
    Seq::new(v.len(), |i: int| v[i]@)
}

/// Whether some string in `v` has view `t`.
pub open spec fn has_view(v: Seq<String>, t: Seq<char>) -> bool {
    exists|i: int| 0 <= i < v.len() && #[trigger] v[i]@ == t
}

/// Inserts `s` into the strictly sorted `v` unless an equal string is present.
pub fn insert_sorted_unique(v: &mut Vec<String>, s: String)
    requires
        strictly_sorted(views_of(old(v)@)),
    ensures
        strictly_sorted(views_of(final(v)@)),
        forall|t: Seq<char>| has_view(final(v)@, t) <==> (has_view(old(v)@, t) || t == s@),
{
    let ghost sv = s@;
    let mut i: usize = 0;
    while i < v.len()
        invariant
            i <= v@.len(),
            v@ == old(v)@,
            s@ == sv,
            strictly_sorted(views_of(old(v)@)),
            forall|k: int| 0 <= k < i ==> seq_lt(#[trigger] v@[k]@, sv),
        ensures
            i <= v@.len(),
            v@ == old(v)@,
            s@ == sv,
            forall|k: int| 0 <= k < i ==> seq_lt(#[trigger] v@[k]@, sv),
            i == v@.len() || seq_lt(sv, v@[i as int]@),
        decreases v@.len() - i,
    {
        let o = compare_str(v[i].as_str(), s.as_str());
        match o {
            TextOrder::Less => {},
            TextOrder::Equal => {
                proof {
                    assert forall|t: Seq<char>| has_view(v@, t) <==> (has_view(old(v)@, t) || t == sv) by {
                        if t == sv {
                            assert(v@[i as int]@ == t);
                        }
                    }
                }
                return;
            },
            TextOrder::Greater => {
                break;
            },
        }
        i += 1;
    }
    let ghost before = v@;
    proof {
        if i < v@.len() {
            assert(seq_lt(sv, v@[i as int]@));
        }
    }
    v.insert(i, s);
    proof {
        assert forall|a: int, b: int| 0 <= a < b < v@.len() implies seq_lt(#[trigger] views_of(v@)[a], #[trigger] views_of(v@)[b]) by {
            if a < i && b == i {
            } else if a < i && b > i {
                assert(views_of(before)[i as int] == before[i as int]@);
                assert(views_of(before)[b - 1] == before[b - 1]@);
                if b - 1 > i {
                    lemma_seq_lt_transitive(sv, before[i as int]@, before[b - 1]@);
                }
                lemma_seq_lt_transitive(before[a]@, sv, before[b - 1]@);
            } else if a == i && b > i {
                if b - 1 > i {
                    assert(views_of(before)[i as int] == before[i as int]@);
                    assert(views_of(before)[b - 1] == before[b - 1]@);
                    lemma_seq_lt_transitive(sv, before[i as int]@, before[b - 1]@);
                }
            } else if a < i && b < i {
                assert(views_of(before)[a] == before[a]@);
                assert(views_of(before)[b] == before[b]@);
            } else {
                assert(views_of(before)[a - 1] == before[a - 1]@);
                assert(views_of(before)[b - 1] == before[b - 1]@);
            }
        }
        assert forall|t: Seq<char>| has_view(v@, t) <==> (has_view(old(v)@, t) || t == sv) by {
            if has_view(v@, t) {
                let k = choose|k: int| 0 <= k < v@.len() && #[trigger] v@[k]@ == t;
                if k < i {
                    assert(before[k]@ == t);
                } else if k > i {
                    assert(before[k - 1]@ == t);
                }
            }
            if has_view(old(v)@, t) {
                let k = choose|k: int| 0 <= k < before.len() && #[trigger] before[k]@ == t;
                if k < i {
                    assert(v@[k]@ == t);
                } else {
                    assert(v@[k + 1]@ == t);
                }
            }
            if t == sv {
                assert(v@[i as int]@ == t);
            }
        }
    }
}

} // verus!

verus! {

/// Whether some string in `v` equals `s`.
pub fn contains_str(v: &Vec<String>, s: &str) -> (r: bool)
    ensures
        r == views_of(v@).contains(s@),
{
    match index_of_str(v, s) {
        Some(i) => {
            proof {
                assert(views_of(v@)[i as int] == s@);
            }
            true
        },
        None => false,
    }
}

/// The first position of `x` in `s`, or -1 when `x` does not occur.
pub open spec fn first_index_of(s: Seq<Seq<char>>, x: Seq<char>) -> int
    decreases s.len(),
{
    if s.len() == 0 {
        -1
    } else if s[0] == x {
        0
    } else {
        let r = first_index_of(s.drop_first(), x);
        if r < 0 {
            -1
        } else {
            r + 1
        }
    }
}

pub proof fn lemma_first_index_of(s: Seq<Seq<char>>, x: Seq<char>, i: int)
    requires
        0 <= i < s.len(),
        s[i] == x,
        forall|k: int| 0 <= k < i ==> s[k] != x,
    ensures
        first_index_of(s, x) == i,
    decreases i,
{
    if i > 0 {
        assert(s[0] != x);
        lemma_first_index_of(s.drop_first(), x, i - 1);
    }
}

pub proof fn lemma_first_index_absent(s: Seq<Seq<char>>, x: Seq<char>)
    requires
        !s.contains(x),
    ensures
        first_index_of(s, x) == -1,
    decreases s.len(),
{
    if s.len() > 0 {
        assert(s[0] != x);
        assert forall|k: int| 0 <= k < s.drop_first().len() implies s.drop_first()[k] != x by {
            assert(s.drop_first()[k] == s[k + 1]);
        }
        lemma_first_index_absent(s.drop_first(), x);
    }
}

/// The first position of a string equal to `s` in `v`.
pub fn index_of_str(v: &Vec<String>, s: &str) -> (r: Option<usize>)
    ensures
        match r {
            Some(i) => i < v@.len() && v@[i as int]@ == s@ && forall|k: int|
                0 <= k < i ==> #[trigger] v@[k]@ != s@,
            None => !views_of(v@).contains(s@),
        },
        match r {
            Some(i) => first_index_of(views_of(v@), s@) == i,
            None => first_index_of(views_of(v@), s@) == -1,
        },
{
    let mut i: usize = 0;
    while i < v.len()
        invariant
            i <= v@.len(),
            forall|k: int| 0 <= k < i ==> #[trigger] v@[k]@ != s@,
        decreases v@.len() - i,
    {
        if compare_str(v[i].as_str(), s) == TextOrder::Equal {
            proof {
                assert forall|k: int| 0 <= k < i implies views_of(v@)[k] != s@ by {
                    assert(v@[k]@ != s@);
                }
                lemma_first_index_of(views_of(v@), s@, i as int);
            }
            return Some(i);
        }
        i += 1;
    }
    proof {
        if views_of(v@).contains(s@) {
            let k = choose|k: int| 0 <= k < views_of(v@).len() && #[trigger] views_of(v@)[k] == s@;
            assert(v@[k]@ == s@);
        }
        lemma_first_index_absent(views_of(v@), s@);
    }
    None
}

/// Whether two strings are equal.
pub fn str_equal(a: &str, b: &str) -> (r: bool)
    ensures
        r == (a@ == b@),
{
    compare_str(a, b) == TextOrder::Equal
}

/// Removes `s` from the strictly sorted `v`, if present.
pub fn remove_sorted(v: &mut Vec<String>, s: &str)
    requires
        strictly_sorted(views_of(old(v)@)),
    ensures
        strictly_sorted(views_of(final(v)@)),
        forall|t: Seq<char>| has_view(final(v)@, t) <==> (has_view(old(v)@, t) && t != s@),
{
    match index_of_str(v, s) {
        Some(i) => {
            let ghost before = v@;
            v.remove(i);
            proof {
                let vb = views_of(before);
                assert forall|a: int, b: int| 0 <= a < b < views_of(v@).len() implies seq_lt(#[trigger] views_of(v@)[a], #[trigger] views_of(v@)[b]) by {
                    let a2 = if a < i { a } else { a + 1 };
                    let b2 = if b < i { b } else { b + 1 };
                    assert(views_of(v@)[a] == vb[a2]);
                    assert(views_of(v@)[b] == vb[b2]);
                }
                assert forall|t: Seq<char>| has_view(v@, t) <==> (has_view(before, t) && t != s@) by {
                    if has_view(v@, t) {
                        let k = choose|k: int| 0 <= k < v@.len() && #[trigger] v@[k]@ == t;
                        let k2 = if k < i { k } else { k + 1 };
                        assert(before[k2]@ == t);
                        if t == s@ {
                            assert(vb[k2] == vb[i as int]);
                            if k2 < i {
                                assert(seq_lt(vb[k2], vb[i as int]));
                            } else {
                                assert(seq_lt(vb[i as int], vb[k2]));
                            }
                            lemma_seq_lt_irreflexive(t);
                        }
                    }
                    if has_view(before, t) && t != s@ {
                        let k = choose|k: int| 0 <= k < before.len() && #[trigger] before[k]@ == t;
                        assert(k != i);
                        let k2 = if k < i { k } else { k - 1 };
                        assert(v@[k2]@ == t);
                    }
                }
            }
        },
        None => {
            proof {
                assert forall|t: Seq<char>| has_view(v@, t) <==> (has_view(v@, t) && t != s@) by {
                    if has_view(v@, t) && t == s@ {
                        let k = choose|k: int| 0 <= k < v@.len() && #[trigger] v@[k]@ == t;
                        assert(views_of(v@)[k] == s@);
                    }
                }
            }
        },
    }
}

} // verus!
