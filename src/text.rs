//! Character-sequence helpers shared by the parsers.

use vstd::prelude::*;
use vstd::std_specs::iter::IteratorSpec;

verus! {

/// The lowercase form of a string, as Unicode case folding defines it.
pub uninterp spec fn lower_of(s: Seq<char>) -> Seq<char>;

/// The characters of `s` in order.
pub(crate) fn chars_of(s: &str) -> (r: Vec<char>)
    ensures
        r@ == s@,
{
    broadcast use vstd::string::axiom_spec_iter, vstd::string::next_postcondition;
    let mut it = s.chars();
    let mut out: Vec<char> = Vec::new();
    loop
        invariant
            it.obeys_prophetic_iter_laws(),
            it.decrease() is Some,
            out@ + it.remaining() == s@,
        decreases it.decrease()->0,
    {
        match it.next() {
            Some(c) => {
                let ghost before = out@;
                out.push(c);
                assert(out@ + it.remaining() =~= before + seq![c] + it.remaining());
            },
            None => {
                assert(out@ + Seq::<char>::empty() =~= out@);
                return out;
            },
        }
    }
}

/// Relies on `String: FromIterator<&char>`: the string made of the characters in order.
#[verifier::external_body]
pub(crate) fn string_of(v: &Vec<char>) -> (r: String)
    ensures
        r@ == v@,
{
    v.iter().collect()
}

/// Relies on `str::to_lowercase`: the result depends on the characters alone.
#[verifier::external_body]
pub(crate) fn lowercase(s: &str) -> (r: String)
    ensures
        r@ == lower_of(s@),
{
    s.to_lowercase()
}

/// `s` with every non-overlapping occurrence of `pat`, scanned left to right,
/// replaced by `rep`. An empty pattern leaves `s` as it is.
pub open spec fn replaced<T>(s: Seq<T>, pat: Seq<T>, rep: Seq<T>) -> Seq<T>
    decreases s.len(),
{
    if pat.len() == 0 || s.len() < pat.len() {
        s
    } else if s.subrange(0, pat.len() as int) == pat {
        rep + replaced(s.subrange(pat.len() as int, s.len() as int), pat, rep)
    } else {
        seq![s[0]] + replaced(s.drop_first(), pat, rep)
    }
}

/// Whether `pat` occurs in `s` at position `i`.
pub open spec fn occurs_at<T>(s: Seq<T>, pat: Seq<T>, i: int) -> bool {
    0 <= i && i + pat.len() <= s.len() && s.subrange(i, i + pat.len()) == pat
}

fn matches_at(s: &Vec<char>, pat: &Vec<char>, i: usize) -> (r: bool)
    requires
        i <= s.len(),
    ensures
        r == occurs_at(s@, pat@, i as int),
{
    if pat.len() > s.len() - i {
        return false;
    }
    let mut j: usize = 0;
    while j < pat.len()
        invariant
            i + pat.len() <= s.len(),
            j <= pat.len(),
            forall|k: int| 0 <= k < j ==> s@[i + k] == pat@[k],
        decreases pat.len() - j,
    {
        if s[i + j] != pat[j] {
            assert(s@.subrange(i as int, i + pat.len())[j as int] != pat@[j as int]);
            return false;
        }
        j = j + 1;
    }
    assert(s@.subrange(i as int, i + pat.len()) =~= pat@);
    true
}

proof fn lemma_replaced_suffix<T>(s: Seq<T>, pat: Seq<T>, rep: Seq<T>, i: int)
    requires
        0 <= i <= s.len(),
    ensures
        replaced(s.subrange(i, s.len() as int), pat, rep) == (
        if pat.len() == 0 || s.len() - i < pat.len() {
            s.subrange(i, s.len() as int)
        } else if occurs_at(s, pat, i) {
            rep + replaced(s.subrange(i + pat.len(), s.len() as int), pat, rep)
        } else {
            seq![s[i]] + replaced(s.subrange(i + 1, s.len() as int), pat, rep)
        }),
{
    let t = s.subrange(i, s.len() as int);
    if pat.len() == 0 || s.len() - i < pat.len() {
    } else {
        assert(t.subrange(0, pat.len() as int) =~= s.subrange(i, i + pat.len()));
        assert(t.subrange(pat.len() as int, t.len() as int) =~= s.subrange(i + pat.len(), s.len() as int));
        assert(t.drop_first() =~= s.subrange(i + 1, s.len() as int));
    }
}

/// Replaces every occurrence of `pat` in `s` by `rep`, left to right.
pub fn replace_all(s: &Vec<char>, pat: &Vec<char>, rep: &Vec<char>) -> (r: Vec<char>)
    ensures
        r@ == replaced(s@, pat@, rep@),
{
    let mut out: Vec<char> = Vec::new();
    let mut i: usize = 0;
    proof {
        assert(s@.subrange(0, s@.len() as int) =~= s@);
    }
    while i < s.len()
        invariant
            i <= s.len(),
            out@ + replaced(s@.subrange(i as int, s@.len() as int), pat@, rep@) == replaced(s@, pat@, rep@),
        decreases s.len() - i,
    {
        proof {
            lemma_replaced_suffix(s@, pat@, rep@, i as int);
        }
        if pat.len() > 0 && matches_at(s, pat, i) {
            let mut k: usize = 0;
            let ghost before = out@;
            while k < rep.len()
                invariant
                    k <= rep.len(),
                    out@ == before + rep@.subrange(0, k as int),
                decreases rep.len() - k,
            {
                out.push(rep[k]);
                k = k + 1;
                proof {
                    assert(rep@.subrange(0, k as int) =~= rep@.subrange(0, k - 1) + seq![rep@[k - 1]]);
                }
            }
            proof {
                assert(rep@.subrange(0, rep@.len() as int) =~= rep@);
                assert(before + (rep@ + replaced(s@.subrange(i + pat@.len(), s@.len() as int), pat@, rep@))
                    =~= (before + rep@) + replaced(s@.subrange(i + pat@.len(), s@.len() as int), pat@, rep@));
            }
            i = i + pat.len();
        } else {
            proof {
                let rest = replaced(s@.subrange(i + 1, s@.len() as int), pat@, rep@);
                if pat@.len() == 0 || s@.len() - i < pat@.len() {
                    let t = s@.subrange(i as int, s@.len() as int);
                    assert(t =~= seq![s@[i as int]] + s@.subrange(i + 1, s@.len() as int));
                    lemma_replaced_short(s@.subrange(i + 1, s@.len() as int), pat@, rep@);
                }
                assert(out@ + (seq![s@[i as int]] + rest) =~= (out@.push(s@[i as int])) + rest);
            }
            out.push(s[i]);
            i = i + 1;
        }
    }
    proof {
        assert(s@.subrange(s@.len() as int, s@.len() as int) =~= Seq::<char>::empty());
        assert(out@ + Seq::<char>::empty() =~= out@);
    }
    out
}

proof fn lemma_replaced_short<T>(s: Seq<T>, pat: Seq<T>, rep: Seq<T>)
    requires
        pat.len() == 0 || s.len() < pat.len(),
    ensures
        replaced(s, pat, rep) == s,
{
}

fn matches_at_bytes(s: &Vec<u8>, pat: &Vec<u8>, i: usize) -> (r: bool)
    requires
        i <= s.len(),
    ensures
        r == occurs_at(s@, pat@, i as int),
{
    if pat.len() > s.len() - i {
        return false;
    }
    let mut j: usize = 0;
    while j < pat.len()
        invariant
            i + pat.len() <= s.len(),
            j <= pat.len(),
            forall|k: int| 0 <= k < j ==> s@[i + k] == pat@[k],
        decreases pat.len() - j,
    {
        if s[i + j] != pat[j] {
            assert(s@.subrange(i as int, i + pat.len())[j as int] != pat@[j as int]);
            return false;
        }
        j = j + 1;
    }
    assert(s@.subrange(i as int, i + pat.len()) =~= pat@);
    true
}

/// Replaces every occurrence of `pat` in `s` by `rep`, left to right.
pub fn replace_bytes(s: &Vec<u8>, pat: &Vec<u8>, rep: &Vec<u8>) -> (r: Vec<u8>)
    ensures
        r@ == replaced(s@, pat@, rep@),
{
    let mut out: Vec<u8> = Vec::new();
    let mut i: usize = 0;
    proof {
        assert(s@.subrange(0, s@.len() as int) =~= s@);
    }
    while i < s.len()
        invariant
            i <= s.len(),
            out@ + replaced(s@.subrange(i as int, s@.len() as int), pat@, rep@) == replaced(s@, pat@, rep@),
        decreases s.len() - i,
    {
        proof {
            lemma_replaced_suffix(s@, pat@, rep@, i as int);
        }
        if pat.len() > 0 && matches_at_bytes(s, pat, i) {
            let mut k: usize = 0;
            let ghost before = out@;
            while k < rep.len()
                invariant
                    k <= rep.len(),
                    out@ == before + rep@.subrange(0, k as int),
                decreases rep.len() - k,
            {
                out.push(rep[k]);
                k = k + 1;
                proof {
                    assert(rep@.subrange(0, k as int) =~= rep@.subrange(0, k - 1) + seq![rep@[k - 1]]);
                }
            }
            proof {
                assert(rep@.subrange(0, rep@.len() as int) =~= rep@);
                assert(before + (rep@ + replaced(s@.subrange(i + pat@.len(), s@.len() as int), pat@, rep@))
                    =~= (before + rep@) + replaced(s@.subrange(i + pat@.len(), s@.len() as int), pat@, rep@));
            }
            i = i + pat.len();
        } else {
            proof {
                let rest = replaced(s@.subrange(i + 1, s@.len() as int), pat@, rep@);
                if pat@.len() == 0 || s@.len() - i < pat@.len() {
                    let t = s@.subrange(i as int, s@.len() as int);
                    assert(t =~= seq![s@[i as int]] + s@.subrange(i + 1, s@.len() as int));
                    lemma_replaced_short(s@.subrange(i + 1, s@.len() as int), pat@, rep@);
                }
                assert(out@ + (seq![s@[i as int]] + rest) =~= (out@.push(s@[i as int])) + rest);
            }
            out.push(s[i]);
            i = i + 1;
        }
    }
    proof {
        assert(s@.subrange(s@.len() as int, s@.len() as int) =~= Seq::<u8>::empty());
        assert(out@ + Seq::<u8>::empty() =~= out@);
    }
    out
}

/// Where no character of `s` can be the second of the pattern, nothing is replaced.
pub proof fn lemma_replaced_absent<T>(s: Seq<T>, pat: Seq<T>, rep: Seq<T>)
    requires
        pat.len() >= 2,
        forall|k: int| 0 <= k < s.len() ==> s[k] != pat[1],
    ensures
        replaced(s, pat, rep) == s,
    decreases s.len(),
{
    if s.len() >= pat.len() {
        assert(s.subrange(0, pat.len() as int)[1] != pat[1]);
        lemma_replaced_absent(s.drop_first(), pat, rep);
        assert(seq![s[0]] + s.drop_first() =~= s);
    }
}

/// A text that starts with the pattern: the replacement, then the rest replaced.
pub proof fn lemma_replaced_head<T>(pat: Seq<T>, b: Seq<T>, rep: Seq<T>)
    requires
        pat.len() > 0,
    ensures
        replaced(pat + b, pat, rep) == rep + replaced(b, pat, rep),
{
    let s = pat + b;
    assert(s.subrange(0, pat.len() as int) =~= pat);
    assert(s.subrange(pat.len() as int, s.len() as int) =~= b);
}

/// Replacement distributes over a concatenation where no occurrence of the
/// pattern straddles the boundary.
pub proof fn lemma_replaced_concat<T>(a: Seq<T>, b: Seq<T>, pat: Seq<T>, rep: Seq<T>)
    requires
        pat.len() > 0,
        forall|i: int| 0 <= i < a.len() && a.len() < i + pat.len() ==> !occurs_at(a + b, pat, i),
    ensures
        replaced(a + b, pat, rep) == replaced(a, pat, rep) + replaced(b, pat, rep),
    decreases a.len(),
{
    let s = a + b;
    let n = pat.len() as int;
    if a.len() == 0 {
        assert(s =~= b);
        assert(replaced(a, pat, rep) == a);
        assert(a + replaced(b, pat, rep) =~= replaced(b, pat, rep));
    } else if s.len() < n {
        assert(replaced(a, pat, rep) == a);
        assert(replaced(b, pat, rep) == b);
    } else if s.subrange(0, n) == pat {
        if a.len() < n {
            assert(occurs_at(s, pat, 0));
        }
        assert(a.subrange(0, n) =~= s.subrange(0, n));
        let a2 = a.subrange(n, a.len() as int);
        assert(s.subrange(n, s.len() as int) =~= a2 + b);
        assert forall|i: int| 0 <= i < a2.len() && a2.len() < i + n implies !occurs_at(a2 + b, pat, i) by {
            if i + n <= (a2 + b).len() {
                assert((a2 + b).subrange(i, i + n) =~= s.subrange(i + n, i + n + n));
                assert(!occurs_at(s, pat, i + n));
            }
        }
        lemma_replaced_concat(a2, b, pat, rep);
        assert(rep + (replaced(a2, pat, rep) + replaced(b, pat, rep)) =~= (rep + replaced(a2, pat, rep)) + replaced(b, pat, rep));
    } else {
        let a2 = a.drop_first();
        assert(s.drop_first() =~= a2 + b);
        assert forall|i: int| 0 <= i < a2.len() && a2.len() < i + n implies !occurs_at(a2 + b, pat, i) by {
            if i + n <= (a2 + b).len() {
                assert((a2 + b).subrange(i, i + n) =~= s.subrange(i + 1, i + 1 + n));
                assert(!occurs_at(s, pat, i + 1));
            }
        }
        lemma_replaced_concat(a2, b, pat, rep);
        if a.len() < n {
            assert(replaced(a, pat, rep) == a);
            assert(replaced(a2, pat, rep) == a2);
            assert(seq![a[0]] + a2 =~= a);
        } else {
            assert(a.subrange(0, n) =~= s.subrange(0, n));
        }
        assert(s[0] == a[0]);
        assert(seq![a[0]] + (replaced(a2, pat, rep) + replaced(b, pat, rep)) =~= (seq![a[0]] + replaced(a2, pat, rep)) + replaced(b, pat, rep));
    }
}

} // verus!
