//! Laws of the checker: policy irrelevance without a wildcard, the
//! invisibility of excluded declarations, acceptance of the two
//! idiomatic wildcard placements, category grouping, and idempotence.
//!
//! Each law is stated over the same spec functions that the contracts of
//! `check_decls` and `sorted` use, so it composes directly with a call's
//! postcondition.

use crate::check::all_keys_derivable;
use crate::check::check_passes;
use crate::check::decl_keys;
use crate::check::sorted_under;
use crate::compare::Category;
use crate::compare::UnderscoreOrder;
use crate::compare::key_lt;
use crate::compare::path_lt;
use crate::compare::seg_lt;
use crate::compare::wild_seg;
use crate::decl::Decl;
use crate::decl::decl_excluded;
use crate::decl::shape_key;
use crate::decl::stripped_attrs;
use vstd::prelude::*;

verus! {

/// Whether a path contains the reserved wildcard segment.
pub open spec fn path_has_wildcard(p: Seq<Seq<char>>) -> bool {
    exists|j: int| 0 <= j < p.len() && p[j] == wild_seg()
}

/// Whether a key's path contains the reserved wildcard segment.
pub open spec fn key_has_wildcard(k: (Category, Seq<Seq<char>>)) -> bool {
    path_has_wildcard(k.1)
}

/// Between wildcard-free paths, the two policies order alike.
proof fn lemma_path_lt_mode(a: Seq<Seq<char>>, b: Seq<Seq<char>>)
    requires
        !path_has_wildcard(a),
        !path_has_wildcard(b),
    ensures
        path_lt(a, b, UnderscoreOrder::First) == path_lt(a, b, UnderscoreOrder::Last),
    decreases a.len(),
{
    if a.len() > 0 && b.len() > 0 {
        assert(a[0] != wild_seg());
        assert(b[0] != wild_seg());
        if a[0] == b[0] {
            assert(!path_has_wildcard(a.drop_first())) by {
                if path_has_wildcard(a.drop_first()) {
                    let j = choose|j: int|
                        0 <= j < a.drop_first().len() && a.drop_first()[j] == wild_seg();
                    assert(a[j + 1] == wild_seg());
                }
            }
            assert(!path_has_wildcard(b.drop_first())) by {
                if path_has_wildcard(b.drop_first()) {
                    let j = choose|j: int|
                        0 <= j < b.drop_first().len() && b.drop_first()[j] == wild_seg();
                    assert(b[j + 1] == wild_seg());
                }
            }
            lemma_path_lt_mode(a.drop_first(), b.drop_first());
        }
    }
}

/// Between wildcard-free keys, the two policies order alike.
pub proof fn lemma_key_lt_mode(a: (Category, Seq<Seq<char>>), b: (Category, Seq<Seq<char>>))
    requires
        !key_has_wildcard(a),
        !key_has_wildcard(b),
    ensures
        key_lt(a, b, UnderscoreOrder::First) == key_lt(a, b, UnderscoreOrder::Last),
{
    lemma_path_lt_mode(a.1, b.1);
}

/// Law: for a container with no exclusions and no wildcard, the check
/// succeeds exactly when the keys are sorted under the `First` policy;
/// the second pass can never accept what the first rejected.
pub proof fn lemma_plain_sorted_exact(decls: Seq<Decl>)
    requires
        forall|n: int| 0 <= n < decls.len() ==> !decl_excluded(#[trigger] decls[n]),
        all_keys_derivable(decls),
        forall|k: int|
            0 <= k < decl_keys(decls).len() ==> !key_has_wildcard(#[trigger] decl_keys(decls)[k]),
    ensures
        check_passes(decls) <==> sorted_under(decl_keys(decls), UnderscoreOrder::First),
{
    let keys = decl_keys(decls);
    assert forall|i: int| 1 <= i < keys.len() implies key_lt(
        #[trigger] keys[i],
        keys[i - 1],
        UnderscoreOrder::First,
    ) == key_lt(keys[i], keys[i - 1], UnderscoreOrder::Last) by {
        lemma_key_lt_mode(keys[i], keys[i - 1]);
    }
    assert(sorted_under(keys, UnderscoreOrder::First) == sorted_under(
        keys,
        UnderscoreOrder::Last,
    ));
}

/// Law: an excluded declaration is invisible to the check, wherever it
/// stands: removing it changes neither the keys nor the verdict.
pub proof fn lemma_excluded_ignored(decls: Seq<Decl>, n: int)
    requires
        0 <= n < decls.len(),
        decl_excluded(decls[n]),
    ensures
        decl_keys(decls.remove(n)) == decl_keys(decls),
        all_keys_derivable(decls.remove(n)) == all_keys_derivable(decls),
        check_passes(decls.remove(n)) == check_passes(decls),
    decreases decls.len(),
{
    let rem = decls.remove(n);
    assert(rem.len() == decls.len() - 1);
    assert forall|j: int| 0 <= j < rem.len() implies #[trigger] rem[j] == (if j < n {
        decls[j]
    } else {
        decls[j + 1]
    }) by {}
    if n == decls.len() - 1 {
        assert(rem =~= decls.drop_last());
    } else {
        let dl = decls.drop_last();
        lemma_excluded_ignored(dl, n);
        assert(rem.drop_last() =~= dl.remove(n));
        assert(rem.last() == decls.last());
    }
    assert(all_keys_derivable(rem) == all_keys_derivable(decls)) by {
        if all_keys_derivable(rem) {
            assert forall|j: int|
                0 <= j < decls.len() && !decl_excluded(#[trigger] decls[j]) implies shape_key(
                decls[j].shape,
            ) is Some by {
                if j < n {
                    assert(decls[j] == rem[j]);
                } else if j > n {
                    assert(decls[j] == rem[j - 1]);
                }
            }
        }
        if all_keys_derivable(decls) {
            assert forall|j: int|
                0 <= j < rem.len() && !decl_excluded(#[trigger] rem[j]) implies shape_key(
                rem[j].shape,
            ) is Some by {
                if j < n {
                    assert(rem[j] == decls[j]);
                } else {
                    assert(rem[j] == decls[j + 1]);
                }
            }
        }
    }
}

/// Law: a container whose last key is the lone wildcard, its other keys
/// concrete, all categories equal, and the keys before the wildcard
/// sorted, is accepted — the wildcard-last arrangement.
pub proof fn lemma_wildcard_last_passes(decls: Seq<Decl>)
    requires
        all_keys_derivable(decls),
        decl_keys(decls).len() >= 1,
        decl_keys(decls).last().1 == seq![wild_seg()],
        forall|k: int|
            0 <= k < decl_keys(decls).len() ==> (#[trigger] decl_keys(decls)[k]).0 == decl_keys(
                decls,
            ).last().0,
        forall|k: int|
            0 <= k < decl_keys(decls).len() - 1 ==> !key_has_wildcard(
                #[trigger] decl_keys(decls)[k],
            ),
        forall|i: int|
            1 <= i < decl_keys(decls).len() - 1 ==> !key_lt(
                #[trigger] decl_keys(decls)[i],
                decl_keys(decls)[i - 1],
                UnderscoreOrder::First,
            ),
    ensures
        check_passes(decls),
{
    let keys = decl_keys(decls);
    let last = keys.len() - 1;
    assert forall|i: int| 1 <= i < keys.len() implies !key_lt(
        #[trigger] keys[i],
        keys[i - 1],
        UnderscoreOrder::Last,
    ) by {
        if i < last {
            lemma_key_lt_mode(keys[i], keys[i - 1]);
        } else {
            let prev = keys[i - 1].1;
            assert(!path_lt(seq![wild_seg()], prev, UnderscoreOrder::Last)) by {
                if prev.len() > 0 {
                    if i - 1 < last {
                        assert(prev[0] != wild_seg()) by {
                            if prev[0] == wild_seg() {
                                assert(path_has_wildcard(prev));
                            }
                        }
                        assert(seq![wild_seg()][0] == wild_seg());
                        assert(!seg_lt(wild_seg(), prev[0], UnderscoreOrder::Last));
                    }
                }
            }
        }
    }
    assert(sorted_under(keys, UnderscoreOrder::Last));
}

/// Law: a container whose first key is the lone wildcard, its other
/// keys concrete with non-empty paths, all categories equal, and the
/// keys after the wildcard sorted, is accepted — the first pass already
/// accepts the wildcard-first arrangement.
pub proof fn lemma_wildcard_first_passes(decls: Seq<Decl>)
    requires
        all_keys_derivable(decls),
        decl_keys(decls).len() >= 1,
        decl_keys(decls)[0].1 == seq![wild_seg()],
        forall|k: int|
            0 <= k < decl_keys(decls).len() ==> (#[trigger] decl_keys(decls)[k]).0 == decl_keys(
                decls,
            )[0].0,
        forall|k: int|
            1 <= k < decl_keys(decls).len() ==> !key_has_wildcard(#[trigger] decl_keys(decls)[k])
                && decl_keys(decls)[k].1.len() >= 1,
        forall|i: int|
            2 <= i < decl_keys(decls).len() ==> !key_lt(
                #[trigger] decl_keys(decls)[i],
                decl_keys(decls)[i - 1],
                UnderscoreOrder::First,
            ),
    ensures
        check_passes(decls),
        sorted_under(decl_keys(decls), UnderscoreOrder::First),
{
    let keys = decl_keys(decls);
    assert forall|i: int| 1 <= i < keys.len() implies !key_lt(
        #[trigger] keys[i],
        keys[i - 1],
        UnderscoreOrder::First,
    ) by {
        if i == 1 {
            let p = keys[1].1;
            assert(p[0] != wild_seg()) by {
                if p[0] == wild_seg() {
                    assert(path_has_wildcard(p));
                }
            }
            assert(!path_lt(p, seq![wild_seg()], UnderscoreOrder::First)) by {
                assert(seq![wild_seg()][0] == wild_seg());
                assert(p[0] != seq![wild_seg()][0]);
                assert(!seg_lt(p[0], wild_seg(), UnderscoreOrder::First));
            }
        }
    }
}

/// Law: a key of lower category than its predecessor is an inversion
/// under both policies, so the check fails; the category groups kinds
/// before any path is compared.
pub proof fn lemma_category_inversion_fails(decls: Seq<Decl>, i: int)
    requires
        1 <= i < decl_keys(decls).len(),
        decl_keys(decls)[i].0 < decl_keys(decls)[i - 1].0,
    ensures
        !check_passes(decls),
{
    let keys = decl_keys(decls);
    assert(key_lt(keys[i], keys[i - 1], UnderscoreOrder::First));
    assert(key_lt(keys[i], keys[i - 1], UnderscoreOrder::Last));
}

/// On a declaration without an exclusion annotation the check strips
/// nothing.
pub proof fn lemma_strip_nothing(d: Decl)
    requires
        !decl_excluded(d),
    ensures
        stripped_attrs(d.attrs) == d.attrs@,
{
}

/// The verdict depends only on the declarations' shapes and the values
/// of their annotations.
pub proof fn lemma_check_congruent(a: Seq<Decl>, b: Seq<Decl>)
    requires
        a.len() == b.len(),
        forall|n: int|
            0 <= n < a.len() ==> (#[trigger] b[n]).shape == a[n].shape && b[n].attrs@
                == a[n].attrs@,
    ensures
        decl_keys(b) == decl_keys(a),
        all_keys_derivable(b) == all_keys_derivable(a),
        check_passes(b) == check_passes(a),
    decreases a.len(),
{
    assert forall|n: int| 0 <= n < a.len() implies decl_excluded(#[trigger] b[n]) == decl_excluded(
        a[n],
    ) by {
        assert(b[n].attrs.deep_view() =~= a[n].attrs.deep_view());
    }
    if a.len() > 0 {
        lemma_check_congruent(a.drop_last(), b.drop_last());
        assert(b.last().attrs.deep_view() =~= a.last().attrs.deep_view());
    }
    assert(all_keys_derivable(b) == all_keys_derivable(a)) by {
        if all_keys_derivable(a) {
            assert forall|n: int|
                0 <= n < b.len() && !decl_excluded(#[trigger] b[n]) implies shape_key(b[n].shape)
                is Some by {
                assert(!decl_excluded(a[n]));
            }
        }
        if all_keys_derivable(b) {
            assert forall|n: int|
                0 <= n < a.len() && !decl_excluded(#[trigger] a[n]) implies shape_key(a[n].shape)
                is Some by {
                assert(!decl_excluded(b[n]));
            }
        }
    }
}

/// Law: idempotence.  A passing check on a container that carries no
/// exclusion annotation leaves every declaration's annotations as they
/// were, and the container it leaves behind passes again.
pub proof fn lemma_check_idempotent(before: Seq<Decl>, after: Seq<Decl>)
    requires
        forall|n: int| 0 <= n < before.len() ==> !decl_excluded(#[trigger] before[n]),
        check_passes(before),
        after.len() == before.len(),
        forall|n: int|
            0 <= n < before.len() ==> (#[trigger] after[n]).shape == before[n].shape
                && after[n].attrs@ == stripped_attrs(before[n].attrs),
    ensures
        forall|n: int| 0 <= n < before.len() ==> (#[trigger] after[n]).attrs@ == before[n].attrs@,
        check_passes(after),
{
    assert forall|n: int| 0 <= n < before.len() implies (#[trigger] after[n]).attrs@
        == before[n].attrs@ by {
        lemma_strip_nothing(before[n]);
    }
    lemma_check_congruent(before, after);
}

} // verus!
