use vstd::prelude::*;

use crate::countries::{all_areas_valid, CountryOverview};
use crate::filters::SortBy;

verus! {

/// Lexicographic comparison of two texts by character code: -1, 0 or 1 as
/// `a` comes before, equals or comes after `b`.
pub open spec fn text_cmp(a: Seq<char>, b: Seq<char>) -> int
    decreases a.len(),
{
    if a.len() == 0 {
        if b.len() == 0 {
            0
        } else {
            -1
        }
    } else if b.len() == 0 {
        1
    } else if a[0] < b[0] {
        -1
    } else if a[0] > b[0] {
        1
    } else {
        text_cmp(a.drop_first(), b.drop_first())
    }
}

/// `a` may stand before `b` when ordering by `key`.
pub open spec fn key_le(a: CountryOverview, b: CountryOverview, key: SortBy) -> bool {
    match key {
        SortBy::Name => text_cmp(a.name.common@, b.name.common@) <= 0,
        SortBy::Population => a.population <= b.population,
        SortBy::Area => a.area_bits <= b.area_bits,
    }
}

/// `a` and `b` have equal values of the sort key `key`.
pub open spec fn same_key(a: CountryOverview, b: CountryOverview, key: SortBy) -> bool {
    match key {
        SortBy::Name => a.name.common@ == b.name.common@,
        SortBy::Population => a.population == b.population,
        SortBy::Area => a.area_bits == b.area_bits,
    }
}

/// `s` is in ascending order of `key`.
pub open spec fn sorted_by(s: Seq<CountryOverview>, key: SortBy) -> bool {
    forall|k: int, l: int| 0 <= k < l < s.len() ==> key_le(#[trigger] s[k], #[trigger] s[l], key)
}

/// `output[k]` is `input[perm[k]]`, `perm` is a permutation, `output` is in
/// ascending order of `key`, and records with equal keys keep their input order.
pub open spec fn stable_sort_witness(
    input: Seq<CountryOverview>,
    output: Seq<CountryOverview>,
    key: SortBy,
    perm: Seq<int>,
) -> bool {
    &&& perm.len() == input.len()
    &&& output.len() == input.len()
    &&& forall|k: int|
        0 <= k < output.len() ==> 0 <= #[trigger] perm[k] < input.len() && output[k]
            == input[perm[k]]
    &&& forall|k: int, l: int| 0 <= k < l < output.len() ==> #[trigger] perm[k] != #[trigger] perm[l]
    &&& sorted_by(output, key)
    &&& forall|k: int, l: int|
        0 <= k < l < output.len() && same_key(#[trigger] output[k], #[trigger] output[l], key)
            ==> perm[k] < perm[l]
}

/// `output` is the stable sort of `input` by `key`.
pub open spec fn is_stable_sort(
    input: Seq<CountryOverview>,
    output: Seq<CountryOverview>,
    key: SortBy,
) -> bool {
    exists|perm: Seq<int>| stable_sort_witness(input, output, key, perm)
}

proof fn lemma_text_cmp_antisymmetric(a: Seq<char>, b: Seq<char>)
    ensures
        text_cmp(a, b) == -text_cmp(b, a),
        -1 <= text_cmp(a, b) <= 1,
    decreases a.len(),
{
    if a.len() > 0 && b.len() > 0 && a[0] == b[0] {
        lemma_text_cmp_antisymmetric(a.drop_first(), b.drop_first());
    }
}

proof fn lemma_text_cmp_zero(a: Seq<char>, b: Seq<char>)
    ensures
        (text_cmp(a, b) == 0) == (a == b),
    decreases a.len(),
{
    if a.len() > 0 && b.len() > 0 && a[0] == b[0] {
        lemma_text_cmp_zero(a.drop_first(), b.drop_first());
        if a.drop_first() == b.drop_first() {
            assert forall|i: int| 0 <= i < a.len() implies a[i] == b[i] by {
                if i > 0 {
                    assert(a[i] == a.drop_first()[i - 1]);
                    assert(b[i] == b.drop_first()[i - 1]);
                }
            }
            assert(a =~= b);
        }
    } else if a.len() > 0 && b.len() > 0 {
        assert(a[0] != b[0]);
    } else if a.len() != b.len() {
        assert(a.len() != b.len());
    } else {
        assert(a =~= b);
    }
}

proof fn lemma_text_cmp_transitive(a: Seq<char>, b: Seq<char>, c: Seq<char>)
    requires
        text_cmp(a, b) <= 0,
        text_cmp(b, c) <= 0,
    ensures
        text_cmp(a, c) <= 0,
    decreases a.len(),
{
    if a.len() > 0 && b.len() > 0 && c.len() > 0 && a[0] == b[0] && b[0] == c[0] {
        lemma_text_cmp_transitive(a.drop_first(), b.drop_first(), c.drop_first());
    }
}

proof fn lemma_key_le_total(a: CountryOverview, b: CountryOverview, key: SortBy)
    ensures
        key_le(a, b, key) || key_le(b, a, key),
{
    lemma_text_cmp_antisymmetric(a.name.common@, b.name.common@);
}

proof fn lemma_key_le_transitive(
    a: CountryOverview,
    b: CountryOverview,
    c: CountryOverview,
    key: SortBy,
)
    requires
        key_le(a, b, key),
        key_le(b, c, key),
    ensures
        key_le(a, c, key),
{
    if key == SortBy::Name {
        lemma_text_cmp_transitive(a.name.common@, b.name.common@, c.name.common@);
    }
}

proof fn lemma_same_key_le(a: CountryOverview, b: CountryOverview, key: SortBy)
    ensures
        same_key(a, b, key) <==> (key_le(a, b, key) && key_le(b, a, key)),
{
    lemma_text_cmp_antisymmetric(a.name.common@, b.name.common@);
    lemma_text_cmp_zero(a.name.common@, b.name.common@);
}

/// Compares two texts lexicographically by character code.
pub fn compare_text(a: &str, b: &str) -> (r: i8)
    ensures
        r as int == text_cmp(a@, b@),
{
    let a_len = a.unicode_len();
    let b_len = b.unicode_len();
    let mut i: usize = 0;
    proof {
        assert(a@.subrange(0, a_len as int) =~= a@);
        assert(b@.subrange(0, b_len as int) =~= b@);
    }
    while i < a_len && i < b_len
        invariant
            a_len == a@.len(),
            b_len == b@.len(),
            i <= a_len,
            i <= b_len,
            text_cmp(a@, b@) == text_cmp(a@.subrange(i as int, a_len as int), b@.subrange(i as int, b_len as int)),
        decreases a_len - i,
    {
        let ca = a.get_char(i);
        let cb = b.get_char(i);
        proof {
            let sa = a@.subrange(i as int, a_len as int);
            let sb = b@.subrange(i as int, b_len as int);
            assert(sa[0] == ca);
            assert(sb[0] == cb);
            assert(sa.drop_first() =~= a@.subrange(i + 1, a_len as int));
            assert(sb.drop_first() =~= b@.subrange(i + 1, b_len as int));
        }
        if ca < cb {
            return -1;
        }
        if ca > cb {
            return 1;
        }
        i = i + 1;
    }
    if i < a_len {
        1
    } else if i < b_len {
        -1
    } else {
        0
    }
}

/// Whether `a` may stand before `b` when ordering by `key`.
pub fn key_less_or_equal(a: &CountryOverview, b: &CountryOverview, key: SortBy) -> (r: bool)
    ensures
        r == key_le(*a, *b, key),
{
    match key {
        SortBy::Name => compare_text(a.name.common.as_str(), b.name.common.as_str()) <= 0,
        SortBy::Population => a.population <= b.population,
        SortBy::Area => a.area_bits <= b.area_bits,
    }
}

/// Orders the records by `sort_by`, ascending; records with equal keys keep
/// their relative order. Areas are compared by their bit patterns, which
/// order as the numbers do for the valid areas that records carry.
pub fn sort_data(countries: Vec<CountryOverview>, sort_by: &SortBy) -> (r: Vec<CountryOverview>)
    requires
        all_areas_valid(countries@),
    ensures
        is_stable_sort(countries@, r@, *sort_by),
{
    let key = *sort_by;
    let ghost input = countries@;
    let n = countries.len();
    let mut rest = countries;
    let mut out: Vec<CountryOverview> = Vec::new();
    let ghost mut perm: Seq<int> = Seq::empty();
    let mut i: usize = 0;
    proof {
        assert(rest@ =~= input.subrange(0, n as int));
    }
    while i < n
        invariant
            n == input.len(),
            i <= n,
            rest@ == input.subrange(i as int, n as int),
            out@.len() == i,
            perm.len() == i,
            forall|k: int|
                0 <= k < i ==> 0 <= #[trigger] perm[k] < i && out@[k] == input[perm[k]],
            forall|k: int, l: int| 0 <= k < l < i ==> #[trigger] perm[k] != #[trigger] perm[l],
            sorted_by(out@, key),
            forall|k: int, l: int|
                0 <= k < l < i && same_key(#[trigger] out@[k], #[trigger] out@[l], key)
                    ==> perm[k] < perm[l],
        decreases n - i,
    {
        let x = rest.remove(0);
        proof {
            assert(x == input[i as int]);
            assert(rest@ =~= input.subrange(i + 1, n as int));
        }
        let mut j: usize = 0;
        while j < out.len() && key_less_or_equal(&out[j], &x, key)
            invariant
                out@.len() == i,
                j <= i,
                forall|k: int| 0 <= k < j ==> key_le(#[trigger] out@[k], x, key),
            decreases i - j,
        {
            j = j + 1;
        }
        proof {
            let old_out = out@;
            assert forall|l: int| j <= l < i implies key_le(x, #[trigger] old_out[l], key)
                && !same_key(x, old_out[l], key) by {
                lemma_key_le_total(old_out[j as int], x, key);
                if l > j {
                    assert(key_le(old_out[j as int], old_out[l], key));
                    lemma_key_le_transitive(x, old_out[j as int], old_out[l], key);
                }
                lemma_same_key_le(x, old_out[l], key);
                if same_key(x, old_out[l], key) && l > j {
                    lemma_key_le_transitive(old_out[j as int], old_out[l], x, key);
                }
            }
            perm = perm.insert(j as int, i as int);
        }
        out.insert(j, x);
        proof {
            assert forall|k: int, l: int| 0 <= k < l < i + 1 && same_key(#[trigger] out@[k], #[trigger] out@[l], key)
                implies perm[k] < perm[l] by {
                if l == j {
                    lemma_same_key_le(out@[k], out@[l], key);
                }
                if k == j {
                    assert(!same_key(x, out@[l], key));
                }
            }
        }
        i = i + 1;
    }
    proof {
        assert(stable_sort_witness(input, out@, key, perm));
    }
    out
}

} // verus!
