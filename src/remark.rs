//! Display names of emitted proxies: an optional type prefix, then made unique.
use vstd::prelude::*;
use vstd::string::StringExecFns;
use crate::filter::kept;
use crate::model::{kind_label_spec, Proxy};
use crate::text::{chars_of, push_chars, push_text, same_chars, string_of};

verus! {

/// The decimal digit for `d < 10`.
pub open spec fn digit(d: nat) -> char {
    if d == 0 {
        '0'
    } else if d == 1 {
        '1'
    } else if d == 2 {
        '2'
    } else if d == 3 {
        '3'
    } else if d == 4 {
        '4'
    } else if d == 5 {
        '5'
    } else if d == 6 {
        '6'
    } else if d == 7 {
        '7'
    } else if d == 8 {
        '8'
    } else {
        '9'
    }
}

fn digit_char(d: u64) -> (r: char)
    requires
        d < 10,
    ensures
        r == digit(d as nat),
{
    if d == 0 {
        '0'
    } else if d == 1 {
        '1'
    } else if d == 2 {
        '2'
    } else if d == 3 {
        '3'
    } else if d == 4 {
        '4'
    } else if d == 5 {
        '5'
    } else if d == 6 {
        '6'
    } else if d == 7 {
        '7'
    } else if d == 8 {
        '8'
    } else {
        '9'
    }
}

/// The decimal text of `n`.
pub open spec fn decimal(n: nat) -> Seq<char>
    decreases n,
{
    if n < 10 {
        seq![digit(n)]
    } else {
        decimal(n / 10).push(digit(n % 10))
    }
}

/// The decimal text of `n`.
pub fn decimal_of(n: u64) -> (r: Vec<char>)
    ensures
        r@ == decimal(n as nat),
    decreases n,
{
    if n < 10 {
        let mut r: Vec<char> = Vec::new();
        r.push(digit_char(n));
        assert(r@ =~= seq![digit(n as nat)]);
        r
    } else {
        let mut r = decimal_of(n / 10);
        r.push(digit_char(n % 10));
        r
    }
}

/// The `k`-th candidate name for `base`: `"<base> <k>"`.
pub open spec fn candidate(base: Seq<char>, k: nat) -> Seq<char> {
    base + " "@ + decimal(k)
}

/// The first free candidate from `k` on, trying at most `fuel` of them.
pub open spec fn first_free(base: Seq<char>, taken: Seq<Seq<char>>, k: nat, fuel: nat) -> nat
    decreases fuel,
{
    if fuel == 0 || !taken.contains(candidate(base, k)) {
        k
    } else {
        first_free(base, taken, k + 1, (fuel - 1) as nat)
    }
}

/// `base` made distinct from the names already `taken`: kept where free,
/// else the first free `"<base> <k>"` for `k = 2, 3, ...`.
pub open spec fn dedupe(base: Seq<char>, taken: Seq<Seq<char>>) -> Seq<char> {
    if !taken.contains(base) {
        base
    } else {
        candidate(base, first_free(base, taken, 2, taken.len()))
    }
}

fn contains_name(list: &Vec<String>, name: &Vec<char>) -> (r: bool)
    ensures
        r == names_of(list@).contains(name@),
{
    let mut i: usize = 0;
    while i < list.len()
        invariant
            i <= list@.len(),
            forall|j: int| 0 <= j < i ==> list@[j]@ != name@,
        decreases list@.len() - i,
    {
        let c = chars_of(list[i].as_str());
        if same_chars(&c, name) {
            assert(names_of(list@)[i as int] == name@);
            return true;
        }
        i += 1;
    }
    assert(!names_of(list@).contains(name@)) by {
        if names_of(list@).contains(name@) {
            let j = choose|j: int| 0 <= j < names_of(list@).len() && names_of(list@)[j] == name@;
            assert(list@[j]@ == name@);
        }
    }
    false
}

/// The names held in `list`.
pub open spec fn names_of(list: Seq<String>) -> Seq<Seq<char>> {
    Seq::new(list.len(), |j: int| list[j]@)
}

/// Makes `remark` distinct from the names in `remarks_list`.
pub fn process_remark(remark: &mut String, remarks_list: &Vec<String>)
    requires
        remarks_list@.len() < u64::MAX - 2,
    ensures
        final(remark)@ == dedupe(old(remark)@, names_of(remarks_list@)),
        !names_of(remarks_list@).contains(final(remark)@),
{
    proof {
        lemma_dedupe_is_free(remark@, names_of(remarks_list@));
    }
    let base = chars_of(remark.as_str());
    let ghost taken = names_of(remarks_list@);
    if !contains_name(remarks_list, &base) {
        return;
    }
    let mut k: u64 = 2;
    let mut fuel: u64 = remarks_list.len() as u64;
    let mut cand = candidate_of(&base, k);
    while fuel > 0 && contains_name(remarks_list, &cand)
        invariant
            cand@ == candidate(base@, k as nat),
            k + fuel == remarks_list@.len() + 2,
            remarks_list@.len() < u64::MAX - 2,
            taken == names_of(remarks_list@),
            first_free(base@, taken, k as nat, fuel as nat) == first_free(
                base@,
                taken,
                2,
                taken.len(),
            ),
        decreases fuel,
    {
        k += 1;
        fuel -= 1;
        cand = candidate_of(&base, k);
    }
    *remark = string_of(cand.as_slice());
}

fn candidate_of(base: &Vec<char>, k: u64) -> (r: Vec<char>)
    ensures
        r@ == candidate(base@, k as nat),
{
    let mut r = base.clone();
    push_text(&mut r, " ");
    let d = decimal_of(k);
    push_chars(&mut r, &d);
    r
}

/// The name a proxy is shown under before it is made unique.
pub open spec fn prefixed_remark(p: Proxy, append_proxy_type: bool) -> Seq<char> {
    if append_proxy_type {
        "["@ + kind_label_spec(p.proxy_type) + "] "@ + p.remark@
    } else {
        p.remark@
    }
}

/// The name `p` is shown under before it is made unique.
pub fn prefixed_remark_of(p: &Proxy, append_proxy_type: bool) -> (r: String)
    ensures
        r@ == prefixed_remark(*p, append_proxy_type),
{
    let r = if append_proxy_type {
        let mut s = String::from_str("[");
        s.append(p.proxy_type.kind_label());
        s.append("] ");
        s.append(p.remark.as_str());
        s
    } else {
        p.remark.clone()
    };
    assert(r@ =~= prefixed_remark(*p, append_proxy_type));
    r
}

/// The names of the proxies the filter keeps, in order: each prefixed with
/// `[<Type>] ` where asked, then made distinct from the names of the kept
/// proxies before it.
pub open spec fn kept_remarks(
    nodes: Seq<Proxy>,
    append_proxy_type: bool,
    clash_r: bool,
    filter_deprecated: bool,
) -> Seq<Seq<char>>
    decreases nodes.len(),
{
    if nodes.len() == 0 {
        seq![]
    } else {
        let before = kept_remarks(nodes.drop_last(), append_proxy_type, clash_r, filter_deprecated);
        if kept(nodes.last(), clash_r, filter_deprecated) {
            before.push(dedupe(prefixed_remark(nodes.last(), append_proxy_type), before))
        } else {
            before
        }
    }
}

/// The names given to kept proxies are pairwise distinct.
pub proof fn lemma_kept_remarks_distinct(
    nodes: Seq<Proxy>,
    append_proxy_type: bool,
    clash_r: bool,
    filter_deprecated: bool,
)
    ensures
        ({
            let all = kept_remarks(nodes, append_proxy_type, clash_r, filter_deprecated);
            forall|i: int, j: int| 0 <= i < j < all.len() ==> #[trigger] all[i] != #[trigger] all[j]
        }),
    decreases nodes.len(),
{
    if nodes.len() > 0 {
        lemma_kept_remarks_distinct(nodes.drop_last(), append_proxy_type, clash_r, filter_deprecated);
        let before = kept_remarks(nodes.drop_last(), append_proxy_type, clash_r, filter_deprecated);
        let base = prefixed_remark(nodes.last(), append_proxy_type);
        lemma_dedupe_is_free(base, before);
        let all = kept_remarks(nodes, append_proxy_type, clash_r, filter_deprecated);
        assert forall|i: int, j: int| 0 <= i < j < all.len() implies #[trigger] all[i] != #[trigger] all[j] by {
            assert(before.len() <= all.len());
            if j == all.len() - 1 && all.len() > before.len() {
                assert(before[i] == all[i]);
                if all[i] == all[j] {
                    assert(before.contains(dedupe(base, before)));
                }
            } else {
                assert(before[i] == all[i]);
                assert(before[j] == all[j]);
            }
        }
    }
}

proof fn lemma_decimal_len(n: nat)
    ensures
        decimal(n).len() >= 1,
        n >= 10 ==> decimal(n).len() >= 2,
    decreases n,
{
    if n >= 10 {
        lemma_decimal_len(n / 10);
    }
}

/// Distinct numbers have distinct decimal texts.
pub proof fn lemma_decimal_injective(a: nat, b: nat)
    requires
        decimal(a) == decimal(b),
    ensures
        a == b,
    decreases a,
{
    lemma_decimal_len(a / 10);
    lemma_decimal_len(b / 10);
    if a >= 10 && b >= 10 {
        assert(decimal(a).drop_last() == decimal(a / 10));
        assert(decimal(b).drop_last() == decimal(b / 10));
        lemma_decimal_injective(a / 10, b / 10);
        assert(decimal(a).last() == digit(a % 10));
        assert(decimal(b).last() == digit(b % 10));
        assert(a % 10 == b % 10);
        assert(a == 10 * (a / 10) + a % 10) by (nonlinear_arith);
        assert(b == 10 * (b / 10) + b % 10) by (nonlinear_arith);
    } else if a >= 10 {
        assert(decimal(a).len() >= 2);
    } else if b >= 10 {
        assert(decimal(b).len() >= 2);
    } else {
        assert(decimal(a)[0] == digit(a));
        assert(decimal(b)[0] == digit(b));
    }
}

proof fn lemma_candidate_injective(base: Seq<char>, a: nat, b: nat)
    requires
        candidate(base, a) == candidate(base, b),
    ensures
        a == b,
{
    let n = base.len() + 1;
    reveal_strlit(" ");
    assert(candidate(base, a).skip(n as int) =~= decimal(a));
    assert(candidate(base, b).skip(n as int) =~= decimal(b));
    lemma_decimal_injective(a, b);
}

proof fn lemma_first_free_shape(base: Seq<char>, taken: Seq<Seq<char>>, k: nat, fuel: nat)
    ensures
        k <= first_free(base, taken, k, fuel) <= k + fuel,
        forall|m: nat|
            k <= m < first_free(base, taken, k, fuel) ==> taken.contains(#[trigger] candidate(base, m)),
        first_free(base, taken, k, fuel) < k + fuel ==> !taken.contains(
            candidate(base, first_free(base, taken, k, fuel)),
        ),
    decreases fuel,
{
    if fuel > 0 && taken.contains(candidate(base, k)) {
        lemma_first_free_shape(base, taken, k + 1, (fuel - 1) as nat);
    }
}

/// The name `dedupe` picks is never among those taken.
pub proof fn lemma_dedupe_is_free(base: Seq<char>, taken: Seq<Seq<char>>)
    ensures
        !taken.contains(dedupe(base, taken)),
{
    if taken.contains(base) {
        let n = taken.len();
        let j = first_free(base, taken, 2, n);
        lemma_first_free_shape(base, taken, 2, n);
        if taken.contains(candidate(base, j)) {
            assert(j == 2 + n);
            let f = |m: int| candidate(base, m as nat);
            let x = vstd::set_lib::set_int_range(2, 3 + n as int);
            vstd::set_lib::lemma_int_range(2, 3 + n as int);
            let y = x.map(f);
            assert(vstd::relations::injective_on(f, x)) by {
                assert forall|a: int, b: int| x.contains(a) && x.contains(b) && #[trigger] f(a) == #[trigger] f(b) implies a == b by {
                    lemma_candidate_injective(base, a as nat, b as nat);
                }
            }
            vstd::set_lib::lemma_map_size(x, y, f);
            assert(y.subset_of(taken.to_set())) by {
                assert forall|s: Seq<char>| y.contains(s) implies taken.to_set().contains(s) by {
                    let m = choose|m: int| x.contains(m) && f(m) == s;
                    if m < j {
                        assert(taken.contains(candidate(base, m as nat)));
                    }
                }
            }
            taken.lemma_cardinality_of_set();
            vstd::set_lib::lemma_len_subset(y, taken.to_set());
        }
    }
}

} // verus!
