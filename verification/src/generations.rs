//! Which of the kept trees may go: the newest stay.
use vstd::prelude::*;

use crate::text::chars_of;
#[allow(unused_imports)]
use crate::text::texts;
use crate::version::{rank_texts, Rank, Version};
#[allow(unused_imports)]
use crate::version::{
    below_is_asymmetric, below_is_transitive, lemma_text_below_asymmetric, lemma_text_below_weak,
    not_below_is_transitive, opt_version, text_below, version_below, version_in,
};

verus! {

/// Is the tree of the name `a` worth more than that of `b`? A newer version is, any version
/// before a name that is none, and of such names the one that comes first.
pub open spec fn worth_more(a: Seq<char>, b: Seq<char>) -> bool {
    match (version_in(a), version_in(b)) {
        (Some(x), Some(y)) => version_below(y, x),
        (Some(_), None) => true,
        (None, Some(_)) => false,
        (None, None) => text_below(a, b),
    }
}

/// Does the name at `i` go before that at `j`? Of names worth the same, the first listed does.
pub open spec fn precedes(names: Seq<Seq<char>>, i: int, j: int) -> bool {
    worth_more(names[i], names[j]) || (!worth_more(names[j], names[i]) && i < j)
}

/// How many of the first `n` names go before the one at `j`.
pub open spec fn ahead(names: Seq<Seq<char>>, j: int, n: nat) -> nat
    decreases n,
{
    if n == 0 {
        0
    } else {
        ahead(names, j, (n - 1) as nat) + (if precedes(names, n - 1, j) {
            1nat
        } else {
            0
        })
    }
}

/// Of the first `n` names, those that are not among the `keep` that go before the others.
pub open spec fn doomed(names: Seq<Seq<char>>, keep: nat, n: nat) -> Seq<Seq<char>>
    decreases n,
{
    if n == 0 {
        Seq::empty()
    } else {
        let rest = doomed(names, keep, (n - 1) as nat);
        if ahead(names, n - 1, names.len()) >= keep {
            rest.push(names[n - 1])
        } else {
            rest
        }
    }
}

fn is_worth_more(a: &str, b: &str) -> (r: bool)
    ensures
        r == worth_more(a@, b@),
{
    match (Version::parse(a), Version::parse(b)) {
        (Some(x), Some(y)) => match y.rank(&x) {
            Rank::Below => true,
            _ => false,
        },
        (Some(_), None) => true,
        (None, Some(_)) => false,
        (None, None) => match rank_texts(&chars_of(a), &chars_of(b)) {
            Rank::Below => true,
            _ => false,
        },
    }
}

fn count_ahead(names: &[String], j: usize) -> (r: usize)
    requires
        j < names@.len(),
    ensures
        r == ahead(texts(names@), j as int, names@.len()),
{
    let ghost all = texts(names@);
    let mut i: usize = 0;
    let mut count: usize = 0;
    while i < names.len()
        invariant
            i <= names@.len(),
            j < names@.len(),
            all == texts(names@),
            count <= i,
            count == ahead(all, j as int, i as nat),
        decreases names@.len() - i,
    {
        let more = is_worth_more(names[i].as_str(), names[j].as_str());
        let less = is_worth_more(names[j].as_str(), names[i].as_str());
        if more || (!less && i < j) {
            count += 1;
        }
        i += 1;
    }
    count
}

/// The kept trees that go, of those named: all but the newest `keep`, by version and not by name.
pub fn prune(names: &[String], keep: usize) -> (r: Vec<String>)
    ensures
        texts(r@) == doomed(texts(names@), keep as nat, names@.len()),
{
    let ghost all = texts(names@);
    let mut out: Vec<String> = Vec::new();
    let mut i: usize = 0;
    proof {
        assert(texts(out@) =~= Seq::<Seq<char>>::empty());
    }
    while i < names.len()
        invariant
            i <= names@.len(),
            all == texts(names@),
            texts(out@) == doomed(all, keep as nat, i as nat),
        decreases names@.len() - i,
    {
        let before: usize = count_ahead(names, i);
        if before >= keep {
            let ghost listed = texts(out@);
            out.push(names[i].clone());
            proof {
                assert(texts(out@) =~= listed.push(all[i as int]));
            }
        }
        i += 1;
    }
    out
}

proof fn lemma_worth_more_is_an_order(a: Seq<char>, b: Seq<char>, c: Seq<char>)
    ensures
        !(worth_more(a, b) && worth_more(b, a)),
        worth_more(a, b) && worth_more(b, c) ==> worth_more(a, c),
        !worth_more(a, b) && !worth_more(b, c) ==> !worth_more(a, c),
{
    match (version_in(a), version_in(b)) {
        (Some(x), Some(y)) => {
            below_is_asymmetric(x, y);
            match version_in(c) {
                Some(z) => {
                    if version_below(y, x) && version_below(z, y) {
                        below_is_transitive(z, y, x);
                    }
                    if !version_below(y, x) && !version_below(z, y) {
                        not_below_is_transitive(z, y, x);
                    }
                },
                None => {},
            }
        },
        (None, None) => {
            lemma_text_below_asymmetric(a, b);
            lemma_text_below_weak(a, b, c);
        },
        _ => {},
    }
}

/// Going before is a strict order of the listed names: two are always ordered, one way only.
proof fn lemma_precedes_is_an_order(names: Seq<Seq<char>>, i: int, j: int, k: int)
    ensures
        !precedes(names, i, i),
        !(precedes(names, i, j) && precedes(names, j, i)),
        i != j ==> precedes(names, i, j) || precedes(names, j, i),
        precedes(names, i, j) && precedes(names, j, k) ==> precedes(names, i, k),
{
    let a = names[i];
    let b = names[j];
    let c = names[k];
    lemma_worth_more_is_an_order(a, b, c);
    lemma_worth_more_is_an_order(a, a, a);
    lemma_worth_more_is_an_order(a, c, b);
    lemma_worth_more_is_an_order(c, b, a);
    lemma_worth_more_is_an_order(b, a, c);
    lemma_worth_more_is_an_order(b, c, a);
    lemma_worth_more_is_an_order(c, a, b);
}

proof fn lemma_ahead_grows(names: Seq<Seq<char>>, i: int, j: int, n: nat)
    requires
        precedes(names, i, j),
        0 <= i,
    ensures
        ahead(names, i, n) <= ahead(names, j, n),
        i < n ==> ahead(names, i, n) < ahead(names, j, n),
        ahead(names, j, n) <= n,
    decreases n,
{
    if n > 0 {
        lemma_ahead_grows(names, i, j, (n - 1) as nat);
        lemma_precedes_is_an_order(names, n - 1, i, j);
        lemma_precedes_is_an_order(names, i, i, i);
    }
}

proof fn lemma_ahead_is_bounded(names: Seq<Seq<char>>, j: int, n: nat)
    ensures
        ahead(names, j, n) <= n,
        0 <= j < n ==> ahead(names, j, n) < n,
    decreases n,
{
    if n > 0 {
        lemma_ahead_is_bounded(names, j, (n - 1) as nat);
        lemma_precedes_is_an_order(names, j, j, j);
    }
}

/// The places of the first `n` names among all.
spec fn ranks(names: Seq<Seq<char>>, n: nat) -> Seq<int> {
    Seq::new(n, |j: int| ahead(names, j, names.len()) as int)
}

proof fn lemma_ranks_differ(names: Seq<Seq<char>>, n: nat)
    requires
        n <= names.len(),
    ensures
        ranks(names, n).no_duplicates(),
        ranks(names, n).to_set().subset_of(vstd::set_lib::set_int_range(0, names.len() as int)),
{
    let s = ranks(names, n);
    assert forall|i: int, j: int| 0 <= i < n && 0 <= j < n && i != j implies s[i] != s[j] by {
        lemma_precedes_is_an_order(names, i, j, i);
        if precedes(names, i, j) {
            lemma_ahead_grows(names, i, j, names.len());
        } else {
            lemma_ahead_grows(names, j, i, names.len());
        }
    }
    assert forall|r: int| s.to_set().contains(r) implies 0 <= r < names.len() by {
        let j = choose|j: int| 0 <= j < n && s[j] == r;
        lemma_ahead_is_bounded(names, j, names.len());
    }
}

/// The ranks that are at least `keep`.
spec fn late(keep: nat) -> spec_fn(int) -> bool {
    |r: int| r >= keep
}

proof fn lemma_doomed_count(names: Seq<Seq<char>>, keep: nat, n: nat)
    requires
        n <= names.len(),
    ensures
        ranks(names, n).to_set().filter(late(keep)).finite(),
        doomed(names, keep, n).len() == ranks(names, n).to_set().filter(late(keep)).len(),
    decreases n,
{
    let set = ranks(names, n).to_set().filter(late(keep));
    if n == 0 {
        assert(set =~= Set::<int>::empty());
    } else {
        let m = (n - 1) as nat;
        let before = ranks(names, m).to_set().filter(late(keep));
        lemma_doomed_count(names, keep, m);
        lemma_ranks_differ(names, n);
        let s = ranks(names, n);
        let t = ranks(names, m);
        let last = s[n - 1];
        assert(!t.contains(last)) by {
            if t.contains(last) {
                let j = choose|j: int| 0 <= j < m && t[j] == last;
                assert(s[j] == s[n - 1]);
            }
        }
        assert forall|r: int| s.contains(r) == (t.contains(r) || r == last) by {
            if s.contains(r) {
                let j = choose|j: int| 0 <= j < n && s[j] == r;
                if j < n - 1 {
                    assert(t[j] == r);
                }
            }
            if t.contains(r) {
                let j = choose|j: int| 0 <= j < m && t[j] == r;
                assert(s[j] == r);
            }
            if r == last {
                assert(s[n - 1] == r);
            }
        }
        if last >= keep {
            assert(set =~= before.insert(last));
        } else {
            assert(set =~= before);
        }
    }
}

/// Exactly as many trees stay as are wanted, or all of them where there are not more.
pub proof fn pruning_keeps_as_many_as_wanted(names: Seq<Seq<char>>, keep: nat)
    ensures
        doomed(names, keep, names.len()).len() == (if names.len() > keep {
            names.len() - keep
        } else {
            0
        }),
{
    let n = names.len();
    let all = ranks(names, n).to_set();
    let range = vstd::set_lib::set_int_range(0, n as int);
    lemma_doomed_count(names, keep, n);
    lemma_ranks_differ(names, n);
    ranks(names, n).unique_seq_to_set();
    vstd::set_lib::lemma_int_range(0, n as int);
    vstd::set_lib::lemma_len_subset(all, range);
    vstd::set_lib::lemma_subset_equality(all, range);
    if n > keep {
        assert(all.filter(late(keep)) =~= vstd::set_lib::set_int_range(keep as int, n as int));
        vstd::set_lib::lemma_int_range(keep as int, n as int);
    } else {
        assert(all.filter(late(keep)) =~= Set::<int>::empty());
    }
}

/// What goes is never worth more than what stays.
pub proof fn pruning_keeps_the_best(names: Seq<Seq<char>>, keep: nat, stays: int, goes: int)
    requires
        0 <= stays < names.len(),
        0 <= goes < names.len(),
        ahead(names, stays, names.len()) < keep,
        ahead(names, goes, names.len()) >= keep,
    ensures
        !worth_more(names[goes], names[stays]),
{
    if worth_more(names[goes], names[stays]) {
        lemma_ahead_grows(names, goes, stays, names.len());
    }
}

/// A newer version is never given up for an older one, and no version for a name that is none.
pub proof fn a_version_outlasts_a_stray_name(version: Seq<char>, stray: Seq<char>)
    requires
        version_in(version) is Some,
        version_in(stray) is None,
    ensures
        worth_more(version, stray),
        !worth_more(stray, version),
{
}

/// A newer version is worth more than an older one, and of names that are no versions the one
/// whose first differing character comes first is.
pub proof fn what_a_tree_is_worth(
    older: Seq<char>,
    newer: Seq<char>,
    common: Seq<char>,
    a: Seq<char>,
    b: Seq<char>,
)
    ensures
        version_in(older) is Some && version_in(newer) is Some && version_below(
            version_in(older)->0,
            version_in(newer)->0,
        ) ==> worth_more(newer, older) && !worth_more(older, newer),
        version_in(common + a) is None && version_in(common + b) is None && a.len() > 0 && b.len()
            > 0 && a[0] < b[0] ==> worth_more(common + a, common + b) && !worth_more(
            common + b,
            common + a,
        ),
        version_in(common) is None && version_in(common + b) is None && b.len() > 0 ==> worth_more(
            common,
            common + b,
        ) && !worth_more(common + b, common),
{
    if version_in(older) is Some && version_in(newer) is Some {
        crate::version::below_is_asymmetric(version_in(older)->0, version_in(newer)->0);
    }
    crate::version::lemma_common_text(common, a, b);
    crate::version::lemma_common_text(common, b, a);
    let none = Seq::<char>::empty();
    crate::version::lemma_common_text(common, none, b);
    crate::version::lemma_common_text(common, b, none);
    assert(common + none =~= common);
}

proof fn lemma_doomed_holds(names: Seq<Seq<char>>, keep: nat, n: nat, name: Seq<char>)
    requires
        n <= names.len(),
    ensures
        doomed(names, keep, n).contains(name) <==> exists|k: int|
            0 <= k < n && names[k] == name && #[trigger] ahead(names, k, names.len()) >= keep,
    decreases n,
{
    if n > 0 {
        let m = (n - 1) as nat;
        let before = doomed(names, keep, m);
        let all = doomed(names, keep, n);
        lemma_doomed_holds(names, keep, m, name);
        if ahead(names, n - 1, names.len()) >= keep {
            assert(all[before.len() as int] == names[n - 1]);
            if before.contains(name) {
                let i = choose|i: int| 0 <= i < before.len() && before[i] == name;
                assert(all[i] == name);
            }
            if all.contains(name) && name != names[n - 1] {
                let i = choose|i: int| 0 <= i < all.len() && all[i] == name;
                assert(before[i] == name);
            }
        }
    }
}

/// Of trees with different names, none goes that is worth more than one that stays.
pub proof fn what_goes_is_worth_no_more(
    names: Seq<Seq<char>>,
    keep: nat,
    goes: int,
    stays: int,
)
    requires
        0 <= goes < names.len(),
        0 <= stays < names.len(),
        forall|i: int, j: int|
            0 <= i < j < names.len() ==> #[trigger] names[i] != #[trigger] names[j],
        doomed(names, keep, names.len()).contains(names[goes]),
        !doomed(names, keep, names.len()).contains(names[stays]),
    ensures
        !worth_more(names[goes], names[stays]),
{
    lemma_doomed_holds(names, keep, names.len(), names[goes]);
    lemma_doomed_holds(names, keep, names.len(), names[stays]);
    let k = choose|k: int|
        0 <= k < names.len() && names[k] == names[goes] && #[trigger] ahead(names, k, names.len())
            >= keep;
    if k < goes {
        assert(names[k] != names[goes]);
    } else if goes < k {
        assert(names[goes] != names[k]);
    }
    assert(ahead(names, stays, names.len()) < keep);
    pruning_keeps_the_best(names, keep, stays, goes);
}

/// Nothing goes that was not there, and nothing goes where no more are there than are kept.
pub proof fn nothing_else_goes(names: Seq<Seq<char>>, keep: nat, name: Seq<char>)
    ensures
        doomed(names, keep, names.len()).contains(name) ==> names.contains(name),
        names.len() <= keep ==> doomed(names, keep, names.len()) == Seq::<Seq<char>>::empty(),
{
    lemma_doomed_holds(names, keep, names.len(), name);
    pruning_keeps_as_many_as_wanted(names, keep);
    if doomed(names, keep, names.len()).contains(name) {
        let k = choose|k: int|
            0 <= k < names.len() && names[k] == name && #[trigger] ahead(names, k, names.len())
                >= keep;
        assert(names[k] == name);
    }
}

} // verus!
