//! Natural, case-insensitive ordering of file names, as the folder listing is sorted.

use vstd::prelude::*;
use crate::text::is_digit;
use crate::image_cache::directory::DirItem;

verus! {

broadcast use vstd::seq_lib::group_to_multiset_ensures;

/// How two file names compare.
#[derive(Debug, Clone, Copy, PartialEq, Eq, Structural)]
pub enum NameOrder {
    Less,
    Equal,
    Greater,
}

/// The lowercase ASCII transliteration of a name that `lexical_sort` compares
/// (`lexical_sort::iter::iterate_lexical`).
pub uninterp spec fn lexical_form(s: Seq<char>) -> Seq<char>;

/// The order `lexical_sort::natural_lexical_cmp` puts two names in.
pub uninterp spec fn natural_order(a: Seq<char>, b: Seq<char>) -> NameOrder;

/// No run of ASCII digits in `s`, counting `run` digits just before it, is longer
/// than nineteen digits, so that every run is a number that fits in a `u64`.
pub open spec fn digit_runs_from(s: Seq<char>, run: nat) -> bool
    decreases s.len(),
{
    if s.len() == 0 {
        true
    } else if is_digit(s[0]) {
        run + 1 <= 19 && digit_runs_from(s.drop_first(), run + 1)
    } else {
        digit_runs_from(s.drop_first(), 0)
    }
}

/// Every run of digits in `s` fits in a `u64`.
pub open spec fn digit_runs_fit(s: Seq<char>) -> bool {
    digit_runs_from(s, 0)
}

/// A name that `natural_lexical_cmp` compares without overflowing: the numbers in its
/// transliteration have at most nineteen digits.
pub open spec fn comparable_name(s: Seq<char>) -> bool {
    digit_runs_fit(lexical_form(s))
}

/// `a` comes no later than `b`.
pub open spec fn name_le(a: Seq<char>, b: Seq<char>) -> bool {
    natural_order(a, b) != NameOrder::Greater
}

/// The transliteration that `lexical_sort` compares (`iterate_lexical`), collected.
#[verifier::external_body]
fn lexical_chars(s: &str) -> (r: Vec<char>)
    ensures
        r@ == lexical_form(s@),
{
    lexical_sort::iter::iterate_lexical(s).collect()
}

/// `lexical_sort::natural_lexical_cmp` on two names whose digit runs fit in a `u64`
/// (it accumulates each run in a `u64`). Its source compares both arguments in the
/// same way, so swapping them swaps `Less` and `Greater`; the order itself is left to
/// the name `natural_order`.
#[verifier::external_body]
fn natural_name_order(a: &str, b: &str) -> (r: NameOrder)
    requires
        comparable_name(a@) || comparable_name(b@),
    ensures
        r == natural_order(a@, b@),
        (r == NameOrder::Greater) == (natural_order(b@, a@) == NameOrder::Less),
{
    match lexical_sort::natural_lexical_cmp(a, b) {
        core::cmp::Ordering::Less => NameOrder::Less,
        core::cmp::Ordering::Equal => NameOrder::Equal,
        core::cmp::Ordering::Greater => NameOrder::Greater,
    }
}

/// Whether the name can be compared: no number in its transliteration is longer than
/// nineteen digits.
pub fn name_is_comparable(name: &str) -> (r: bool)
    ensures
        r == comparable_name(name@),
{
    let form = lexical_chars(name);
    let mut run: usize = 0;
    let mut i: usize = 0;
    assert(form@.skip(0) =~= form@);
    while i < form.len()
        invariant
            i <= form.len(),
            run <= 19,
            form@ == lexical_form(name@),
            digit_runs_fit(form@) == digit_runs_from(form@.skip(i as int), run as nat),
        decreases form.len() - i,
    {
        let c = form[i];
        assert(form@.skip(i as int)[0] == c);
        assert(form@.skip(i as int).drop_first() =~= form@.skip(i + 1));
        if '0' <= c && c <= '9' {
            if run + 1 > 19 {
                assert(is_digit(form@.skip(i as int)[0]));
                assert(!digit_runs_from(form@.skip(i as int), run as nat));
                return false;
            }
            run = run + 1;
        } else {
            run = 0;
        }
        i = i + 1;
    }
    assert(form@.skip(i as int) =~= Seq::<char>::empty());
    true
}

/// Any two items of `s` can be compared: of two items, at least one has a comparable
/// name (`natural_lexical_cmp` only overflows its digit count on two names that both
/// hold a number of twenty digits or more).
pub open spec fn names_comparable(s: Seq<DirItem>) -> bool {
    forall|i: int, j: int|
        0 <= i < j < s.len() ==> comparable_name(#[trigger] s[i].file_name@) || comparable_name(
            #[trigger] s[j].file_name@,
        )
}

/// Any item of `a` can be compared with any item of `b`.
pub open spec fn cross_comparable(a: Seq<DirItem>, b: Seq<DirItem>) -> bool {
    forall|i: int, j: int|
        0 <= i < a.len() && 0 <= j < b.len() ==> comparable_name(#[trigger] a[i].file_name@)
            || comparable_name(#[trigger] b[j].file_name@)
}

/// Each item's name comes no later than the next one's.
pub open spec fn sorted_by_name(s: Seq<DirItem>) -> bool {
    forall|i: int|
        0 <= i < s.len() - 1 ==> #[trigger] name_le(s[i].file_name@, s[i + 1].file_name@)
}

fn merge(left: Vec<DirItem>, right: Vec<DirItem>) -> (r: Vec<DirItem>)
    requires
        cross_comparable(left@, right@),
        sorted_by_name(left@),
        sorted_by_name(right@),
    ensures
        r@.to_multiset() == left@.to_multiset().add(right@.to_multiset()),
        sorted_by_name(r@),
{
    let mut out: Vec<DirItem> = Vec::new();
    let mut i: usize = 0;
    let mut j: usize = 0;
    while i < left.len() || j < right.len()
        invariant
            i <= left.len(),
            j <= right.len(),
            cross_comparable(left@, right@),
            sorted_by_name(left@),
            sorted_by_name(right@),
            out.len() == i + j,
            out@.to_multiset() == left@.take(i as int).to_multiset().add(
                right@.take(j as int).to_multiset(),
            ),
            sorted_by_name(out@),
            out.len() > 0 && i < left.len() ==> name_le(
                out@.last().file_name@,
                left@[i as int].file_name@,
            ),
            out.len() > 0 && j < right.len() ==> name_le(
                out@.last().file_name@,
                right@[j as int].file_name@,
            ),
        decreases left.len() + right.len() - i - j,
    {
        let take_left = if i == left.len() {
            false
        } else if j == right.len() {
            true
        } else {
            assert(comparable_name(left@[i as int].file_name@) || comparable_name(right@[j as int].file_name@));
            let o = natural_name_order(left[i].file_name.as_str(), right[j].file_name.as_str());
            o != NameOrder::Greater
        };
        let ghost before = out@;
        if take_left {
            let item = left[i].clone();
            out.push(item);
            assert(left@.take(i + 1) =~= left@.take(i as int).push(left@[i as int]));
            if i + 1 < left.len() {
                assert(name_le(left@[i as int].file_name@, left@[i + 1].file_name@));
            }
            i = i + 1;
        } else {
            let item = right[j].clone();
            out.push(item);
            assert(right@.take(j + 1) =~= right@.take(j as int).push(right@[j as int]));
            if j + 1 < right.len() {
                assert(name_le(right@[j as int].file_name@, right@[j + 1].file_name@));
            }
            j = j + 1;
        }
        assert(out@ == before.push(out@.last()));
        assert forall|k: int| 0 <= k < out@.len() - 1 implies #[trigger] name_le(
            out@[k].file_name@,
            out@[k + 1].file_name@,
        ) by {
            if k < out@.len() - 2 {
                assert(out@[k] == before[k]);
                assert(out@[k + 1] == before[k + 1]);
            } else {
                assert(out@[k] == before.last());
            }
        }
    }
    assert(left@.take(left.len() as int) =~= left@);
    assert(right@.take(right.len() as int) =~= right@);
    out
}

/// Every item of `s` is an item of `t`, so what holds of any pair of items of `t`
/// holds of `s`.
proof fn lemma_items_from(s: Seq<DirItem>, t: Seq<DirItem>)
    requires
        s.to_multiset() == t.to_multiset(),
    ensures
        forall|k: int| 0 <= k < s.len() ==> t.contains(#[trigger] s[k]),
{
    assert forall|k: int| 0 <= k < s.len() implies t.contains(#[trigger] s[k]) by {
        assert(s.contains(s[k]));
        assert(s.to_multiset().count(s[k]) > 0);
        assert(t.contains(s[k]));
    }
}

/// Sorts the items by their names in natural order (a merge sort).
pub fn sort_by_name(v: Vec<DirItem>) -> (r: Vec<DirItem>)
    requires
        names_comparable(v@),
    ensures
        r@.to_multiset() == v@.to_multiset(),
        sorted_by_name(r@),
    decreases v.len(),
{
    if v.len() <= 1 {
        return v;
    }
    let ghost whole = v@;
    let mut left = v;
    let mid = left.len() / 2;
    let right = left.split_off(mid);
    assert(whole =~= left@ + right@);
    proof {
        vstd::seq_lib::lemma_multiset_commutative(left@, right@);
    }
    assert forall|a: int, b: int| 0 <= a < b < left@.len() implies comparable_name(
        #[trigger] left@[a].file_name@,
    ) || comparable_name(#[trigger] left@[b].file_name@) by {
        assert(left@[a] == whole[a] && left@[b] == whole[b]);
    }
    assert forall|a: int, b: int| 0 <= a < b < right@.len() implies comparable_name(
        #[trigger] right@[a].file_name@,
    ) || comparable_name(#[trigger] right@[b].file_name@) by {
        assert(right@[a] == whole[a + mid] && right@[b] == whole[b + mid]);
    }
    let ghost l0 = left@;
    let ghost r0 = right@;
    let sorted_left = sort_by_name(left);
    let sorted_right = sort_by_name(right);
    proof {
        lemma_items_from(sorted_left@, l0);
        lemma_items_from(sorted_right@, r0);
        assert forall|a: int, b: int| 0 <= a < sorted_left@.len() && 0 <= b < sorted_right@.len() implies comparable_name(
            #[trigger] sorted_left@[a].file_name@,
        ) || comparable_name(#[trigger] sorted_right@[b].file_name@) by {
            assert(l0.contains(sorted_left@[a]));
            assert(r0.contains(sorted_right@[b]));
            let ma = choose|m: int| 0 <= m < l0.len() && l0[m] == sorted_left@[a];
            let mb = choose|m: int| 0 <= m < r0.len() && r0[m] == sorted_right@[b];
            assert(l0[ma] == whole[ma]);
            assert(r0[mb] == whole[mb + mid]);
        }
    }
    merge(sorted_left, sorted_right)
}

} // verus!
