//! The order verifier and the diagnosis locator.
//!
//! The verifier scans the keys of the non-excluded declarations twice:
//! once treating the wildcard as sorting first, once as sorting last.  A
//! container is accepted when either pass finds no adjacent decrease.
//! When both passes fail, the first inversion of the second pass names
//! the misplaced declaration, and a binary search over the sorted prefix
//! before it locates the declaration it should have preceded.

use crate::compare::Category;
use crate::compare::Path;
use crate::compare::UnderscoreOrder;
use crate::compare::cmp;
use crate::compare::key_le;
use crate::compare::key_lt;
use crate::compare::key_view;
use crate::compare::key_views;
use crate::compare::lemma_key_le_trans;
use crate::compare::lemma_key_lt_le_trans;
use crate::compare::lemma_key_lt_total;
use crate::decl::Decl;
use crate::decl::Input;
use crate::decl::decl_excluded;
use crate::decl::remove_unsorted_attr;
use crate::decl::same_kind;
use crate::decl::shape_key;
use crate::decl::stripped_attrs;
use crate::decl::to_path;
use core::cmp::Ordering;
use vstd::prelude::*;

verus! {

broadcast use crate::compare::lemma_key_views;

/// A failed check.
pub enum Error {
    /// The declaration at this position (in source order, excluded
    /// declarations counted) cannot be reduced to a sort key.
    UnsupportedDeclaration { index: usize },
    /// The declaration with path `lesser` is out of place: it should
    /// sort before the declaration with path `greater`.
    OrderViolation { lesser: Path, greater: Path },
}

/// The keys of the non-excluded declarations, in source order; a
/// declaration without a derivable key contributes nothing.
pub open spec fn decl_keys(decls: Seq<Decl>) -> Seq<(Category, Seq<Seq<char>>)>
    decreases decls.len(),
{
    if decls.len() == 0 {
        Seq::empty()
    } else {
        let prefix = decl_keys(decls.drop_last());
        let d = decls.last();
        if decl_excluded(d) {
            prefix
        } else {
            match shape_key(d.shape) {
                Some(k) => prefix.push(k),
                None => prefix,
            }
        }
    }
}

/// Every non-excluded declaration has a derivable sort key.
pub open spec fn all_keys_derivable(decls: Seq<Decl>) -> bool {
    forall|n: int|
        0 <= n < decls.len() && !decl_excluded(#[trigger] decls[n]) ==> shape_key(decls[n].shape)
            is Some
}

/// `n` is the first non-excluded declaration whose shape cannot be
/// reduced to a sort key.
pub open spec fn is_first_unsupported(decls: Seq<Decl>, n: int) -> bool {
    &&& 0 <= n < decls.len()
    &&& !decl_excluded(decls[n])
    &&& shape_key(decls[n].shape) is None
    &&& forall|j: int|
        0 <= j < n && !decl_excluded(#[trigger] decls[j]) ==> shape_key(decls[j].shape) is Some
}

/// No adjacent pair of keys decreases under the given policy.
pub open spec fn sorted_under(
    keys: Seq<(Category, Seq<Seq<char>>)>,
    mode: UnderscoreOrder,
) -> bool {
    forall|i: int| 1 <= i < keys.len() ==> !key_lt(#[trigger] keys[i], keys[i - 1], mode)
}

/// The check succeeds exactly when every non-excluded declaration has a
/// derivable key and the key sequence is sorted under at least one
/// wildcard policy.
pub open spec fn check_passes(decls: Seq<Decl>) -> bool {
    &&& all_keys_derivable(decls)
    &&& (sorted_under(decl_keys(decls), UnderscoreOrder::First) || sorted_under(
        decl_keys(decls),
        UnderscoreOrder::Last,
    ))
}

/// `i` is the first adjacent inversion under the given policy.
pub open spec fn is_first_inversion(
    keys: Seq<(Category, Seq<Seq<char>>)>,
    mode: UnderscoreOrder,
    i: int,
) -> bool {
    &&& 1 <= i < keys.len()
    &&& key_lt(keys[i], keys[i - 1], mode)
    &&& forall|j: int| 1 <= j < i ==> !key_lt(#[trigger] keys[j], keys[j - 1], mode)
}

/// `p` is the position of the reference element for the violation at
/// `i`: the smallest-indexed key in `keys[0..i]` strictly above the
/// violator under the `Last` policy (one past a run of equals).
pub open spec fn is_reference_pos(
    keys: Seq<(Category, Seq<Seq<char>>)>,
    i: int,
    p: int,
) -> bool {
    &&& 0 <= p < i
    &&& key_lt(keys[i], keys[p], UnderscoreOrder::Last)
    &&& forall|j: int| 0 <= j < p ==> !key_lt(keys[i], #[trigger] keys[j], UnderscoreOrder::Last)
}

/// The violation reported for an unsorted container: the first inversion
/// under `Last`, with its reference position, and the two paths handed
/// back to the caller.
pub open spec fn reported_violation(
    keys: Seq<(Category, Seq<Seq<char>>)>,
    i: int,
    p: int,
    lesser: Seq<Seq<char>>,
    greater: Seq<Seq<char>>,
) -> bool {
    &&& is_first_inversion(keys, UnderscoreOrder::Last, i)
    &&& is_reference_pos(keys, i, p)
    &&& lesser == keys[i].1
    &&& greater == keys[p].1
}

/// How a checked declaration relates to its original: same shape, and
/// the first exclusion annotation, if any, removed.
pub open spec fn decl_stripped(a: Decl, b: Decl) -> bool {
    &&& b.shape == a.shape
    &&& b.attrs@ == stripped_attrs(a.attrs)
}

/// The full contract of a check run over one declaration list: shapes
/// are preserved, exclusion annotations are stripped as far as the run
/// got, the run succeeds exactly when `check_passes` holds, and each
/// error pins down what it reports.
pub open spec fn check_ensures(
    old_decls: Seq<Decl>,
    new_decls: Seq<Decl>,
    r: Result<(), Error>,
) -> bool {
    &&& new_decls.len() == old_decls.len()
    &&& forall|n: int|
        0 <= n < old_decls.len() ==> #[trigger] new_decls[n].shape == old_decls[n].shape
    &&& (r is Ok) == check_passes(old_decls)
    &&& match r {
        Ok(_) => forall|n: int|
            0 <= n < old_decls.len() ==> decl_stripped(old_decls[n], #[trigger] new_decls[n]),
        Err(e) => match e {
            Error::UnsupportedDeclaration { index } => {
                &&& is_first_unsupported(old_decls, index as int)
                &&& forall|n: int|
                    0 <= n <= index ==> decl_stripped(old_decls[n], #[trigger] new_decls[n])
                &&& forall|n: int|
                    index < n < old_decls.len() ==> #[trigger] new_decls[n] == old_decls[n]
            },
            Error::OrderViolation { lesser, greater } => {
                &&& all_keys_derivable(old_decls)
                &&& !sorted_under(decl_keys(old_decls), UnderscoreOrder::First)
                &&& !sorted_under(decl_keys(old_decls), UnderscoreOrder::Last)
                &&& forall|n: int|
                    0 <= n < old_decls.len() ==> decl_stripped(old_decls[n], #[trigger] new_decls[n])
                &&& exists|i: int, p: int|
                    reported_violation(decl_keys(old_decls), i, p, lesser@, greater@)
            },
        },
    }
}

/// Assembles the contract of a run that ends in an order violation.
proof fn lemma_check_ensures_violation(
    old_decls: Seq<Decl>,
    new_decls: Seq<Decl>,
    r: Result<(), Error>,
    i: int,
    p: int,
)
    requires
        new_decls.len() == old_decls.len(),
        forall|n: int|
            0 <= n < old_decls.len() ==> #[trigger] new_decls[n].shape == old_decls[n].shape,
        all_keys_derivable(old_decls),
        !sorted_under(decl_keys(old_decls), UnderscoreOrder::First),
        !sorted_under(decl_keys(old_decls), UnderscoreOrder::Last),
        forall|n: int|
            0 <= n < old_decls.len() ==> decl_stripped(old_decls[n], #[trigger] new_decls[n]),
        r matches Err(e) && e matches Error::OrderViolation { lesser, greater }
            && reported_violation(decl_keys(old_decls), i, p, lesser@, greater@),
    ensures
        check_ensures(old_decls, new_decls, r),
{
}

/// Within a prefix without adjacent decreases, any earlier key is at
/// most any later key.
proof fn lemma_sorted_le(
    keys: Seq<(Category, Seq<Seq<char>>)>,
    mode: UnderscoreOrder,
    hi: int,
    x: int,
    y: int,
)
    requires
        hi <= keys.len(),
        forall|j: int| 1 <= j < hi ==> !key_lt(#[trigger] keys[j], keys[j - 1], mode),
        0 <= x <= y < hi,
    ensures
        key_le(keys[x], keys[y], mode),
    decreases y - x,
{
    if x == y {
        lemma_key_lt_total(keys[x], keys[x], mode);
    } else {
        lemma_sorted_le(keys, mode, hi, x, y - 1);
        lemma_key_le_trans(keys[x], keys[y - 1], keys[y], mode);
    }
}

/// A prefix without adjacent decreases is sorted pairwise.
proof fn lemma_adjacent_pairwise(
    keys: Seq<(Category, Seq<Seq<char>>)>,
    mode: UnderscoreOrder,
    hi: int,
)
    requires
        0 <= hi <= keys.len(),
        forall|j: int| 1 <= j < hi ==> !key_lt(#[trigger] keys[j], keys[j - 1], mode),
    ensures
        forall|x: int, y: int|
            0 <= x <= y < hi ==> key_le(#[trigger] keys[x], #[trigger] keys[y], mode),
{
    assert forall|x: int, y: int| 0 <= x <= y < hi implies key_le(
        #[trigger] keys[x],
        #[trigger] keys[y],
        mode,
    ) by {
        lemma_sorted_le(keys, mode, hi, x, y);
    }
}

/// Appending one declaration extends the key sequence by that
/// declaration's key, or by nothing if it is excluded or unsupported.
proof fn lemma_decl_keys_extend(decls: Seq<Decl>, i: int)
    requires
        0 <= i < decls.len(),
    ensures
        decl_keys(decls.subrange(0, i + 1)) == if decl_excluded(decls[i]) {
            decl_keys(decls.subrange(0, i))
        } else {
            match shape_key(decls[i].shape) {
                Some(k) => decl_keys(decls.subrange(0, i)).push(k),
                None => decl_keys(decls.subrange(0, i)),
            }
        },
{
    let s = decls.subrange(0, i + 1);
    assert(s.drop_last() =~= decls.subrange(0, i));
    assert(s.last() == decls[i]);
}

/// Scans adjacent key pairs left to right and returns the position of
/// the first decrease under the given policy, if any.
pub fn find_misordered(paths: &Vec<(Category, Path)>, mode: UnderscoreOrder) -> (r: Option<usize>)
    ensures
        match r {
            None => sorted_under(key_views(paths@), mode),
            Some(i) => is_first_inversion(key_views(paths@), mode, i as int),
        },
{
    let n = paths.len();
    let mut i: usize = 1;
    while i < n
        invariant
            1 <= i,
            n == paths@.len(),
            n == 0 || i <= n,
            forall|j: int|
                1 <= j < i ==> !key_lt(
                    #[trigger] key_views(paths@)[j],
                    key_views(paths@)[j - 1],
                    mode,
                ),
        decreases n - i,
    {
        let c = cmp(&paths[i], &paths[i - 1], mode);
        match c {
            Ordering::Less => {
                return Some(i);
            },
            _ => {},
        }
        i += 1;
    }
    None
}

/// Binary search under the `Last` policy: the number of keys in
/// `paths[0..hi]` that are not strictly above `target`.  Requires that
/// prefix to be sorted pairwise.
fn upper_bound(paths: &Vec<(Category, Path)>, hi: usize, target: &(Category, Path)) -> (r: usize)
    requires
        hi <= paths@.len(),
        forall|x: int, y: int|
            0 <= x <= y < hi ==> key_le(
                #[trigger] key_views(paths@)[x],
                #[trigger] key_views(paths@)[y],
                UnderscoreOrder::Last,
            ),
    ensures
        r <= hi,
        forall|j: int|
            0 <= j < r ==> !key_lt(
                key_view(*target),
                #[trigger] key_views(paths@)[j],
                UnderscoreOrder::Last,
            ),
        forall|j: int|
            r <= j < hi ==> key_lt(
                key_view(*target),
                #[trigger] key_views(paths@)[j],
                UnderscoreOrder::Last,
            ),
{
    let mut lo: usize = 0;
    let mut up: usize = hi;
    while lo < up
        invariant
            lo <= up <= hi <= paths@.len(),
            forall|x: int, y: int|
                0 <= x <= y < hi ==> key_le(
                    #[trigger] key_views(paths@)[x],
                    #[trigger] key_views(paths@)[y],
                    UnderscoreOrder::Last,
                ),
            forall|j: int|
                0 <= j < lo ==> !key_lt(
                    key_view(*target),
                    #[trigger] key_views(paths@)[j],
                    UnderscoreOrder::Last,
                ),
            forall|j: int|
                up <= j < hi ==> key_lt(
                    key_view(*target),
                    #[trigger] key_views(paths@)[j],
                    UnderscoreOrder::Last,
                ),
        decreases up - lo,
    {
        let mid = lo + (up - lo) / 2;
        let c = cmp(&paths[mid], target, UnderscoreOrder::Last);
        match c {
            Ordering::Greater => {
                proof {
                    assert forall|j: int| mid <= j < hi implies key_lt(
                        key_view(*target),
                        key_views(paths@)[j],
                        UnderscoreOrder::Last,
                    ) by {
                        if j < up {
                            lemma_key_lt_le_trans(
                                key_view(*target),
                                key_views(paths@)[mid as int],
                                key_views(paths@)[j],
                                UnderscoreOrder::Last,
                            );
                        }
                    }
                }
                up = mid;
            },
            _ => {
                proof {
                    lemma_key_lt_total(
                        key_view(*target),
                        key_views(paths@)[mid as int],
                        UnderscoreOrder::Last,
                    );
                    assert(!key_lt(
                        key_view(*target),
                        key_views(paths@)[mid as int],
                        UnderscoreOrder::Last,
                    ));
                    assert forall|j: int| 0 <= j < mid + 1 implies !key_lt(
                        key_view(*target),
                        key_views(paths@)[j],
                        UnderscoreOrder::Last,
                    ) by {
                        if key_lt(key_view(*target), key_views(paths@)[j], UnderscoreOrder::Last) {
                            lemma_key_lt_le_trans(
                                key_view(*target),
                                key_views(paths@)[j],
                                key_views(paths@)[mid as int],
                                UnderscoreOrder::Last,
                            );
                        }
                    }
                }
                lo = mid + 1;
            },
        }
    }
    lo
}

/// Strips exclusion annotations and derives the `(Category, Path)` key
/// of every remaining declaration, in source order; stops at the first
/// declaration that has no key.
pub fn collect_paths(decls: &mut Vec<Decl>) -> (r: Result<Vec<(Category, Path)>, Error>)
    ensures
        final(decls)@.len() == old(decls)@.len(),
        forall|n: int|
            0 <= n < old(decls)@.len() ==> #[trigger] final(decls)@[n].shape == old(
                decls,
            )@[n].shape,
        match r {
            Ok(paths) => {
                &&& all_keys_derivable(old(decls)@)
                &&& key_views(paths@) == decl_keys(old(decls)@)
                &&& forall|n: int|
                    0 <= n < old(decls)@.len() ==> decl_stripped(
                        old(decls)@[n],
                        #[trigger] final(decls)@[n],
                    )
            },
            Err(e) => match e {
                Error::UnsupportedDeclaration { index } => {
                    &&& is_first_unsupported(old(decls)@, index as int)
                    &&& forall|n: int|
                        0 <= n <= index ==> decl_stripped(
                            old(decls)@[n],
                            #[trigger] final(decls)@[n],
                        )
                    &&& forall|n: int|
                        index < n < old(decls)@.len() ==> #[trigger] final(decls)@[n] == old(
                            decls,
                        )@[n]
                },
                Error::OrderViolation { .. } => false,
            },
        },
{
    let ghost orig = decls@;
    let n = decls.len();
    let mut paths: Vec<(Category, Path)> = Vec::new();
    let mut i: usize = 0;
    while i < n
        invariant
            i <= n,
            n == decls@.len(),
            n == orig.len(),
            orig == old(decls)@,
            forall|k: int| 0 <= k < n ==> #[trigger] decls@[k].shape == orig[k].shape,
            forall|k: int| 0 <= k < i ==> decl_stripped(orig[k], #[trigger] decls@[k]),
            forall|k: int| i <= k < n ==> #[trigger] decls@[k] == orig[k],
            forall|k: int|
                0 <= k < i && !decl_excluded(#[trigger] orig[k]) ==> shape_key(orig[k].shape)
                    is Some,
            key_views(paths@) == decl_keys(orig.subrange(0, i as int)),
        decreases n - i,
    {
        proof {
            lemma_decl_keys_extend(orig, i as int);
        }
        let excluded = remove_unsorted_attr(&mut decls[i].attrs);
        if !excluded {
            let shape_ref = &decls[i].shape;
            match to_path(shape_ref) {
                Some(p) => {
                    let c = crate::decl::category(shape_ref);
                    proof {
                        let pushed = paths@.push((c, p));
                        assert(key_views(pushed) =~= key_views(paths@).push(key_view((c, p))));
                    }
                    paths.push((c, p));
                },
                None => {
                    return Err(Error::UnsupportedDeclaration { index: i });
                },
            }
        }
        i += 1;
    }
    proof {
        assert(orig.subrange(0, n as int) =~= orig);
    }
    Ok(paths)
}

/// Duplicates a path; the copy holds the same segments.
fn clone_path(p: &Path) -> (r: Path)
    ensures
        r@ == p@,
{
    let r = Path { segments: crate::decl::clone_strings(&p.segments) };
    proof {
        assert(r@ =~= p@);
    }
    r
}

/// Checks one declaration list: strips exclusion annotations, derives
/// the keys, and accepts when the keys are sorted under either wildcard
/// policy; otherwise reports the first violation under `Last` together
/// with the declaration it should have preceded.
#[verifier::rlimit(100)]
#[verifier::spinoff_prover]
pub fn check_decls(decls: &mut Vec<Decl>) -> (r: Result<(), Error>)
    ensures
        check_ensures(old(decls)@, final(decls)@, r),
{
    let paths = match collect_paths(decls) {
        Ok(p) => p,
        Err(e) => {
            proof {
                if let Error::UnsupportedDeclaration { index } = e {
                    assert(!all_keys_derivable(old(decls)@)) by {
                        assert(!decl_excluded(old(decls)@[index as int]));
                    }
                }
            }
            return Err(e);
        },
    };
    let ghost keys = decl_keys(old(decls)@);
    match find_misordered(&paths, UnderscoreOrder::First) {
        None => {
            return Ok(());
        },
        Some(_) => {},
    }
    let wrong = match find_misordered(&paths, UnderscoreOrder::Last) {
        Some(w) => w,
        None => {
            return Ok(());
        },
    };
    proof {
        lemma_adjacent_pairwise(keys, UnderscoreOrder::Last, wrong as int - 1);
    }
    let pos = upper_bound(&paths, wrong - 1, &paths[wrong]);
    let lesser = clone_path(&paths[wrong].1);
    let greater = clone_path(&paths[pos].1);
    let ghost lv = lesser@;
    let ghost gv = greater@;
    let r: Result<(), Error> = Err(Error::OrderViolation { lesser, greater });
    proof {
        assert(reported_violation(decl_keys(old(decls)@), wrong as int, pos as int, lv, gv));
        lemma_check_ensures_violation(old(decls)@, decls@, r, wrong as int, pos as int);
    }
    r
}

/// Checks one container: verifies that its non-excluded declarations
/// are sorted under at least one wildcard policy, stripping exclusion
/// annotations in place, and reports the first violation or the first
/// unsupported declaration otherwise.
pub fn sorted(input: &mut Input) -> (r: Result<(), Error>)
    ensures
        same_kind(*old(input), *final(input)),
        check_ensures(old(input).decls(), final(input).decls(), r),
{
    match input {
        Input::Enum(decls) => check_decls(decls),
        Input::Impl(decls) => check_decls(decls),
        Input::Struct(decls) => check_decls(decls),
        Input::Match(decls) => check_decls(decls),
        Input::Let(decls) => check_decls(decls),
    }
}

} // verus!
