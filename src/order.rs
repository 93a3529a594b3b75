//! The deterministic order in which a cycle's results are reconciled:
//! by category, then server name, then check label, each compared as text.

use vstd::prelude::*;
use crate::models::CheckResult;

verus! {

/// Lexicographic order of texts by code point (the order of their UTF-8 bytes).
pub open spec fn text_less(a: Seq<char>, b: Seq<char>) -> bool
    decreases a.len(),
{
    if a.len() == 0 {
        b.len() > 0
    } else if b.len() == 0 {
        false
    } else if a[0] != b[0] {
        (a[0] as int) < (b[0] as int)
    } else {
        text_less(a.drop_first(), b.drop_first())
    }
}

/// Results are ordered by category, then server name, then check label.
pub open spec fn result_less(x: CheckResult, y: CheckResult) -> bool {
    text_less(x.category@, y.category@) || (x.category@ == y.category@ && (text_less(
        x.server_name@,
        y.server_name@,
    ) || (x.server_name@ == y.server_name@ && text_less(x.check_type@, y.check_type@))))
}

/// No result comes after a later one.
pub open spec fn sorted(s: Seq<CheckResult>) -> bool {
    forall|i: int, j: int| 0 <= i < j < s.len() ==> !result_less(#[trigger] s[j], #[trigger] s[i])
}

pub proof fn lemma_text_less_irreflexive(a: Seq<char>)
    ensures
        !text_less(a, a),
    decreases a.len(),
{
    if a.len() > 0 {
        lemma_text_less_irreflexive(a.drop_first());
    }
}

pub proof fn lemma_text_less_transitive(a: Seq<char>, b: Seq<char>, c: Seq<char>)
    requires
        text_less(a, b),
        text_less(b, c),
    ensures
        text_less(a, c),
    decreases a.len(),
{
    if a.len() > 0 && b.len() > 0 && c.len() > 0 && a[0] == b[0] && b[0] == c[0] {
        lemma_text_less_transitive(a.drop_first(), b.drop_first(), c.drop_first());
    }
}

pub proof fn lemma_result_less_transitive(x: CheckResult, y: CheckResult, z: CheckResult)
    requires
        result_less(x, y),
        result_less(y, z),
    ensures
        result_less(x, z),
{
    if text_less(x.category@, y.category@) && text_less(y.category@, z.category@) {
        lemma_text_less_transitive(x.category@, y.category@, z.category@);
    }
    if text_less(x.server_name@, y.server_name@) && text_less(y.server_name@, z.server_name@) {
        lemma_text_less_transitive(x.server_name@, y.server_name@, z.server_name@);
    }
    if text_less(x.check_type@, y.check_type@) && text_less(y.check_type@, z.check_type@) {
        lemma_text_less_transitive(x.check_type@, y.check_type@, z.check_type@);
    }
}

pub proof fn lemma_result_less_irreflexive(x: CheckResult)
    ensures
        !result_less(x, x),
{
    lemma_text_less_irreflexive(x.category@);
    lemma_text_less_irreflexive(x.server_name@);
    lemma_text_less_irreflexive(x.check_type@);
}

/// Whether text `a` precedes text `b`.
pub fn text_precedes(a: &String, b: &String) -> (r: bool)
    ensures
        r == text_less(a@, b@),
{
    let n = a.as_str().unicode_len();
    let m = b.as_str().unicode_len();
    let mut i: usize = 0;
    proof {
        assert(a@.skip(0) =~= a@);
        assert(b@.skip(0) =~= b@);
    }
    while i < n && i < m
        invariant
            n == a@.len(),
            m == b@.len(),
            i <= n,
            i <= m,
            text_less(a@, b@) == text_less(a@.skip(i as int), b@.skip(i as int)),
        decreases n - i,
    {
        let ca = a.as_str().get_char(i);
        let cb = b.as_str().get_char(i);
        proof {
            assert(a@.skip(i as int)[0] == ca);
            assert(b@.skip(i as int)[0] == cb);
        }
        if ca != cb {
            return (ca as u32) < (cb as u32);
        }
        proof {
            assert(a@.skip(i as int).drop_first() =~= a@.skip(i + 1));
            assert(b@.skip(i as int).drop_first() =~= b@.skip(i + 1));
        }
        i = i + 1;
    }
    i == n && i < m
}

/// Whether result `x` is ordered before result `y`.
pub fn result_precedes(x: &CheckResult, y: &CheckResult) -> (r: bool)
    ensures
        r == result_less(*x, *y),
{
    if text_precedes(&x.category, &y.category) {
        return true;
    }
    if x.category != y.category {
        return false;
    }
    if text_precedes(&x.server_name, &y.server_name) {
        return true;
    }
    if x.server_name != y.server_name {
        return false;
    }
    text_precedes(&x.check_type, &y.check_type)
}

/// Sorts a cycle's results into reconciliation order.
pub fn sort_results(results: Vec<CheckResult>) -> (r: Vec<CheckResult>)
    ensures
        sorted(r@),
        r@.to_multiset() == results@.to_multiset(),
{
    broadcast use vstd::seq_lib::group_to_multiset_ensures;
    let mut out: Vec<CheckResult> = Vec::new();
    let mut rest = results;
    let ghost orig = rest@;
    let mut done: usize = 0;
    proof {
        assert(orig.subrange(0, 0) =~= Seq::<CheckResult>::empty());
    }
    while rest.len() > 0
        invariant
            sorted(out@),
            out@.to_multiset().add(rest@.to_multiset()) == orig.to_multiset(),
        decreases rest@.len(),
    {
        let ghost rest0 = rest@;
        let x = rest.remove(0);
        proof {
            assert(rest0.remove(0) == rest@);
            rest0.to_multiset_ensures();
            assert(rest0.remove(0).to_multiset() =~= rest0.to_multiset().remove(x));
            assert(rest0.contains(x)) by {
                assert(rest0[0] == x);
            }
            assert(rest0.to_multiset() =~= rest@.to_multiset().insert(x));
        }
        let ghost before = out@;
        let mut pos: usize = 0;
        while pos < out.len() && !result_precedes(&x, &out[pos])
            invariant
                out@ == before,
                pos <= out@.len(),
                forall|j: int| 0 <= j < pos ==> !result_less(x, #[trigger] out@[j]),
            decreases out@.len() - pos,
        {
            pos = pos + 1;
        }
        proof {
            if pos < out@.len() {
                assert(result_less(x, out@[pos as int]));
            }
        }
        out.insert(pos, x);
        proof {
            let s = out@;
            assert forall|i: int, j: int| 0 <= i < j < s.len() implies !result_less(#[trigger] s[j], #[trigger] s[i]) by {
                if i < pos && j == pos {
                    assert(!result_less(x, before[i]));
                } else if i == pos && j > pos {
                    let y = before[j - 1];
                    let p = before[pos as int];
                    assert(result_less(x, p));
                    if result_less(y, x) {
                        lemma_result_less_transitive(y, x, p);
                        if j - 1 == pos {
                            lemma_result_less_irreflexive(p);
                        } else {
                            assert(!result_less(y, p));
                        }
                    }
                } else if i < pos && j > pos {
                    assert(!result_less(before[j - 1], before[i]));
                } else if i > pos {
                    assert(!result_less(before[j - 1], before[i - 1]));
                } else {
                    assert(!result_less(before[j], before[i]));
                }
            }
            assert(s.remove(pos as int) =~= before);
            assert(s[pos as int] == x);
            s.to_multiset_ensures();
            assert(s.remove(pos as int).to_multiset() =~= s.to_multiset().remove(x));
            assert(s.contains(x));
            assert(s.to_multiset() =~= before.to_multiset().insert(x));
        }
    }
    proof {
        assert(rest@.to_multiset() =~= vstd::multiset::Multiset::empty());
        assert(out@.to_multiset().add(vstd::multiset::Multiset::empty()) =~= out@.to_multiset());
    }
    out
}

} // verus!
