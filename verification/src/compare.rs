//! The path model: sort keys and the comparator that orders them.
//!
//! A declaration's sort identity is a `Path`, a sequence of name segments.
//! Keys are compared by category first, then by the path, segment by
//! segment, in case-sensitive character order.  The one exception is the
//! reserved wildcard segment `_`, which is not compared lexically: under
//! `UnderscoreOrder::First` it sorts below every concrete segment, under
//! `UnderscoreOrder::Last` above every concrete segment.

use core::cmp::Ordering;
use vstd::prelude::*;

verus! {

/// Where the reserved wildcard segment sorts relative to concrete segments.
#[derive(Clone, Copy)]
pub enum UnderscoreOrder {
    First,
    Last,
}

/// Category tag grouping declaration kinds; the most significant part of a key.
pub type Category = u8;

/// A declaration's sort identity: an ordered sequence of name segments.
pub struct Path {
    pub segments: Vec<String>,
}

impl View for Path {
    type V = Seq<Seq<char>>;

    open spec fn view(&self) -> Seq<Seq<char>> {
        self.segments.deep_view()
    }
}

/// The reserved wildcard segment.
pub open spec fn wild_seg() -> Seq<char> {
    "_"@
}

/// Strict lexicographic order on character sequences.
pub open spec fn chars_lt(a: Seq<char>, b: Seq<char>) -> bool
    decreases a.len(),
{
    if b.len() == 0 {
        false
    } else if a.len() == 0 {
        true
    } else if a[0] == b[0] {
        chars_lt(a.drop_first(), b.drop_first())
    } else {
        a[0] < b[0]
    }
}

/// Strict order on segments under a wildcard policy: the wildcard segment
/// is below every concrete segment under `First` and above every concrete
/// segment under `Last`; concrete segments compare lexically.
pub open spec fn seg_lt(a: Seq<char>, b: Seq<char>, mode: UnderscoreOrder) -> bool {
    if a == b {
        false
    } else if a == wild_seg() {
        mode is First
    } else if b == wild_seg() {
        mode is Last
    } else {
        chars_lt(a, b)
    }
}

/// Strict lexicographic order on paths, built from the segment order.
pub open spec fn path_lt(a: Seq<Seq<char>>, b: Seq<Seq<char>>, mode: UnderscoreOrder) -> bool
    decreases a.len(),
{
    if b.len() == 0 {
        false
    } else if a.len() == 0 {
        true
    } else if a[0] == b[0] {
        path_lt(a.drop_first(), b.drop_first(), mode)
    } else {
        seg_lt(a[0], b[0], mode)
    }
}

/// Strict order on sort keys: by category first, then by path.
pub open spec fn key_lt(
    a: (Category, Seq<Seq<char>>),
    b: (Category, Seq<Seq<char>>),
    mode: UnderscoreOrder,
) -> bool {
    a.0 < b.0 || (a.0 == b.0 && path_lt(a.1, b.1, mode))
}

/// Non-strict counterpart of `key_lt`.
pub open spec fn key_le(
    a: (Category, Seq<Seq<char>>),
    b: (Category, Seq<Seq<char>>),
    mode: UnderscoreOrder,
) -> bool {
    !key_lt(b, a, mode)
}

/// The mathematical key of an executable key pair.
pub open spec fn key_view(k: (Category, Path)) -> (Category, Seq<Seq<char>>) {
    (k.0, k.1@)
}

/// The mathematical keys of an executable key sequence.
pub open spec fn key_views(s: Seq<(Category, Path)>) -> Seq<(Category, Seq<Seq<char>>)> {
    s.map_values(|k: (Category, Path)| key_view(k))
}

/// The indexing and length of `key_views`.
pub broadcast proof fn lemma_key_views(s: Seq<(Category, Path)>)
    ensures
        #![trigger key_views(s)]
        key_views(s).len() == s.len(),
        forall|i: int| 0 <= i < s.len() ==> key_views(s)[i] == key_view(s[i]),
{
}

/// The lexicographic order is total: two sequences are equal, or exactly
/// one is below the other.
pub proof fn lemma_chars_lt_total(a: Seq<char>, b: Seq<char>)
    ensures
        !(chars_lt(a, b) && chars_lt(b, a)),
        a == b ==> !chars_lt(a, b),
        a != b ==> chars_lt(a, b) || chars_lt(b, a),
    decreases a.len(),
{
    if a.len() == 0 && b.len() == 0 {
        assert(a =~= b);
    } else if a.len() > 0 && b.len() > 0 && a[0] == b[0] {
        lemma_chars_lt_total(a.drop_first(), b.drop_first());
        if a.drop_first() == b.drop_first() {
            assert forall|j: int| 0 <= j < a.len() implies a[j] == b[j] by {
                if j > 0 {
                    assert(a[j] == a.drop_first()[j - 1]);
                    assert(b[j] == b.drop_first()[j - 1]);
                }
            }
            assert(a =~= b);
        }
        if a == b {
            assert(a.drop_first() =~= b.drop_first());
        }
    }
}

/// The lexicographic order is transitive.
pub proof fn lemma_chars_lt_trans(a: Seq<char>, b: Seq<char>, c: Seq<char>)
    requires
        chars_lt(a, b),
        chars_lt(b, c),
    ensures
        chars_lt(a, c),
    decreases a.len(),
{
    if a.len() > 0 {
        if a[0] == b[0] && b[0] == c[0] {
            lemma_chars_lt_trans(a.drop_first(), b.drop_first(), c.drop_first());
        }
    }
}

/// Equal prefixes do not affect the lexicographic comparison.
pub proof fn lemma_chars_lt_skip(a: Seq<char>, b: Seq<char>, i: int)
    requires
        0 <= i <= a.len(),
        i <= b.len(),
        forall|j: int| 0 <= j < i ==> a[j] == b[j],
    ensures
        chars_lt(a, b) == chars_lt(a.skip(i), b.skip(i)),
        (a == b) == (a.skip(i) == b.skip(i)),
    decreases i,
{
    if i > 0 {
        assert(a[0] == b[0]);
        assert(forall|j: int| 0 <= j < i - 1 ==> a.drop_first()[j] == b.drop_first()[j]);
        lemma_chars_lt_skip(a.drop_first(), b.drop_first(), i - 1);
        assert(a.drop_first().skip(i - 1) =~= a.skip(i));
        assert(b.drop_first().skip(i - 1) =~= b.skip(i));
        if a.drop_first() == b.drop_first() {
            assert forall|j: int| 0 <= j < a.len() implies a[j] == b[j] by {
                if j > 0 {
                    assert(a[j] == a.drop_first()[j - 1]);
                    assert(b[j] == b.drop_first()[j - 1]);
                }
            }
            assert(a =~= b);
        }
        if a == b {
            assert(a.drop_first() =~= b.drop_first());
        }
    } else {
        assert(a.skip(0) =~= a);
        assert(b.skip(0) =~= b);
    }
}

/// The segment order is total for either policy.
pub proof fn lemma_seg_lt_total(a: Seq<char>, b: Seq<char>, mode: UnderscoreOrder)
    ensures
        !(seg_lt(a, b, mode) && seg_lt(b, a, mode)),
        a == b ==> !seg_lt(a, b, mode),
        a != b ==> seg_lt(a, b, mode) || seg_lt(b, a, mode),
{
    lemma_chars_lt_total(a, b);
}

/// The segment order is transitive for either policy.
pub proof fn lemma_seg_lt_trans(a: Seq<char>, b: Seq<char>, c: Seq<char>, mode: UnderscoreOrder)
    requires
        seg_lt(a, b, mode),
        seg_lt(b, c, mode),
    ensures
        seg_lt(a, c, mode),
{
    lemma_chars_lt_total(a, b);
    lemma_chars_lt_total(b, c);
    lemma_chars_lt_total(a, c);
    if a != wild_seg() && b != wild_seg() && c != wild_seg() {
        lemma_chars_lt_trans(a, b, c);
    }
}

/// The path order is total for either policy.
pub proof fn lemma_path_lt_total(a: Seq<Seq<char>>, b: Seq<Seq<char>>, mode: UnderscoreOrder)
    ensures
        !(path_lt(a, b, mode) && path_lt(b, a, mode)),
        a == b ==> !path_lt(a, b, mode),
        a != b ==> path_lt(a, b, mode) || path_lt(b, a, mode),
    decreases a.len(),
{
    if a.len() == 0 && b.len() == 0 {
        assert(a =~= b);
    } else if a.len() > 0 && b.len() > 0 {
        lemma_seg_lt_total(a[0], b[0], mode);
        if a[0] == b[0] {
            lemma_path_lt_total(a.drop_first(), b.drop_first(), mode);
            if a.drop_first() == b.drop_first() {
                assert forall|j: int| 0 <= j < a.len() implies a[j] == b[j] by {
                    if j > 0 {
                        assert(a[j] == a.drop_first()[j - 1]);
                        assert(b[j] == b.drop_first()[j - 1]);
                    }
                }
                assert(a =~= b);
            }
            if a == b {
                assert(a.drop_first() =~= b.drop_first());
            }
        }
    }
}

/// The path order is transitive for either policy.
pub proof fn lemma_path_lt_trans(
    a: Seq<Seq<char>>,
    b: Seq<Seq<char>>,
    c: Seq<Seq<char>>,
    mode: UnderscoreOrder,
)
    requires
        path_lt(a, b, mode),
        path_lt(b, c, mode),
    ensures
        path_lt(a, c, mode),
    decreases a.len(),
{
    if a.len() > 0 {
        if a[0] == b[0] && b[0] == c[0] {
            lemma_path_lt_trans(a.drop_first(), b.drop_first(), c.drop_first(), mode);
        } else if a[0] == b[0] {
            // head order decided between b and c
        } else if b[0] == c[0] {
            // head order decided between a and b
        } else {
            lemma_seg_lt_trans(a[0], b[0], c[0], mode);
            lemma_seg_lt_total(a[0], c[0], mode);
        }
    }
}

/// Equal prefixes do not affect the path comparison.
pub proof fn lemma_path_lt_skip(a: Seq<Seq<char>>, b: Seq<Seq<char>>, i: int, mode: UnderscoreOrder)
    requires
        0 <= i <= a.len(),
        i <= b.len(),
        forall|j: int| 0 <= j < i ==> a[j] == b[j],
    ensures
        path_lt(a, b, mode) == path_lt(a.skip(i), b.skip(i), mode),
        (a == b) == (a.skip(i) == b.skip(i)),
    decreases i,
{
    if i > 0 {
        assert(a[0] == b[0]);
        assert(forall|j: int| 0 <= j < i - 1 ==> a.drop_first()[j] == b.drop_first()[j]);
        lemma_path_lt_skip(a.drop_first(), b.drop_first(), i - 1, mode);
        assert(a.drop_first().skip(i - 1) =~= a.skip(i));
        assert(b.drop_first().skip(i - 1) =~= b.skip(i));
        if a.drop_first() == b.drop_first() {
            assert forall|j: int| 0 <= j < a.len() implies a[j] == b[j] by {
                if j > 0 {
                    assert(a[j] == a.drop_first()[j - 1]);
                    assert(b[j] == b.drop_first()[j - 1]);
                }
            }
            assert(a =~= b);
        }
        if a == b {
            assert(a.drop_first() =~= b.drop_first());
        }
    } else {
        assert(a.skip(0) =~= a);
        assert(b.skip(0) =~= b);
    }
}

/// The key order is total for either policy: keys with equal category and
/// equal path are equivalent, and any other two keys are strictly ordered
/// one way exactly.
pub proof fn lemma_key_lt_total(
    a: (Category, Seq<Seq<char>>),
    b: (Category, Seq<Seq<char>>),
    mode: UnderscoreOrder,
)
    ensures
        !(key_lt(a, b, mode) && key_lt(b, a, mode)),
        a == b ==> !key_lt(a, b, mode),
        a != b ==> key_lt(a, b, mode) || key_lt(b, a, mode) || (a.0 == b.0 && a.1 == b.1),
{
    lemma_path_lt_total(a.1, b.1, mode);
}

/// The key order is transitive for either policy.
pub proof fn lemma_key_lt_trans(
    a: (Category, Seq<Seq<char>>),
    b: (Category, Seq<Seq<char>>),
    c: (Category, Seq<Seq<char>>),
    mode: UnderscoreOrder,
)
    requires
        key_lt(a, b, mode),
        key_lt(b, c, mode),
    ensures
        key_lt(a, c, mode),
{
    if a.0 == b.0 && b.0 == c.0 {
        lemma_path_lt_trans(a.1, b.1, c.1, mode);
    }
}

/// `key_le` is transitive.
pub proof fn lemma_key_le_trans(
    a: (Category, Seq<Seq<char>>),
    b: (Category, Seq<Seq<char>>),
    c: (Category, Seq<Seq<char>>),
    mode: UnderscoreOrder,
)
    requires
        key_le(a, b, mode),
        key_le(b, c, mode),
    ensures
        key_le(a, c, mode),
{
    if key_lt(c, a, mode) {
        lemma_key_lt_le_trans(c, a, b, mode);
    }
}

/// `key_lt` composed with `key_le` stays strict.
pub proof fn lemma_key_lt_le_trans(
    a: (Category, Seq<Seq<char>>),
    b: (Category, Seq<Seq<char>>),
    c: (Category, Seq<Seq<char>>),
    mode: UnderscoreOrder,
)
    requires
        key_lt(a, b, mode),
        key_le(b, c, mode),
    ensures
        key_lt(a, c, mode),
{
    lemma_key_lt_total(b, c, mode);
    lemma_key_lt_total(a, c, mode);
    if key_lt(b, c, mode) {
        lemma_key_lt_trans(a, b, c, mode);
    } else {
        assert(key_lt(a, c, mode));
    }
}

/// Recognizes the reserved wildcard segment.
fn is_wild(s: &String) -> (r: bool)
    ensures
        r == (s@ == wild_seg()),
{
    proof {
        reveal_strlit("_");
    }
    let st = s.as_str();
    if st.unicode_len() == 1 {
        let c = st.get_char(0);
        if c == '_' {
            proof {
                assert(s@ =~= wild_seg());
            }
            true
        } else {
            false
        }
    } else {
        false
    }
}

/// Compares two segments character by character in lexicographic order.
fn cmp_chars(a: &str, b: &str) -> (r: Ordering)
    ensures
        (r == Ordering::Less) == chars_lt(a@, b@),
        (r == Ordering::Equal) == (a@ == b@),
        (r == Ordering::Greater) == chars_lt(b@, a@),
{
    let alen = a.unicode_len();
    let blen = b.unicode_len();
    let mut i: usize = 0;
    loop
        invariant
            i <= alen,
            i <= blen,
            alen == a@.len(),
            blen == b@.len(),
            forall|j: int| 0 <= j < i ==> a@[j] == b@[j],
        decreases alen - i,
    {
        if i >= alen || i >= blen {
            proof {
                lemma_chars_lt_skip(a@, b@, i as int);
                lemma_chars_lt_skip(b@, a@, i as int);
                if alen == blen {
                    assert(a@.skip(i as int) =~= b@.skip(i as int));
                }
            }
            return if alen < blen {
                Ordering::Less
            } else if alen > blen {
                Ordering::Greater
            } else {
                Ordering::Equal
            };
        }
        let ca = a.get_char(i);
        let cb = b.get_char(i);
        if ca != cb {
            proof {
                lemma_chars_lt_skip(a@, b@, i as int);
                lemma_chars_lt_skip(b@, a@, i as int);
            }
            return if (ca as u32) < (cb as u32) {
                Ordering::Less
            } else {
                Ordering::Greater
            };
        }
        i += 1;
    }
}

/// Compares two segments under a wildcard policy.
fn cmp_segment(a: &String, b: &String, mode: UnderscoreOrder) -> (r: Ordering)
    ensures
        (r == Ordering::Less) == seg_lt(a@, b@, mode),
        (r == Ordering::Equal) == (a@ == b@),
        (r == Ordering::Greater) == seg_lt(b@, a@, mode),
{
    let aw = is_wild(a);
    let bw = is_wild(b);
    if aw && bw {
        Ordering::Equal
    } else if aw {
        match mode {
            UnderscoreOrder::First => Ordering::Less,
            UnderscoreOrder::Last => Ordering::Greater,
        }
    } else if bw {
        match mode {
            UnderscoreOrder::First => Ordering::Greater,
            UnderscoreOrder::Last => Ordering::Less,
        }
    } else {
        cmp_chars(a.as_str(), b.as_str())
    }
}

/// Compares two paths segment by segment under a wildcard policy.
fn cmp_path(a: &Path, b: &Path, mode: UnderscoreOrder) -> (r: Ordering)
    ensures
        (r == Ordering::Less) == path_lt(a@, b@, mode),
        (r == Ordering::Equal) == (a@ == b@),
        (r == Ordering::Greater) == path_lt(b@, a@, mode),
{
    let alen = a.segments.len();
    let blen = b.segments.len();
    let mut i: usize = 0;
    loop
        invariant
            i <= alen,
            i <= blen,
            alen == a@.len(),
            blen == b@.len(),
            forall|j: int| 0 <= j < i ==> a@[j] == b@[j],
        decreases alen - i,
    {
        if i >= alen || i >= blen {
            proof {
                lemma_path_lt_skip(a@, b@, i as int, mode);
                lemma_path_lt_skip(b@, a@, i as int, mode);
                if alen == blen {
                    assert(a@.skip(i as int) =~= b@.skip(i as int));
                }
            }
            return if alen < blen {
                Ordering::Less
            } else if alen > blen {
                Ordering::Greater
            } else {
                Ordering::Equal
            };
        }
        let r = cmp_segment(&a.segments[i], &b.segments[i], mode);
        match r {
            Ordering::Equal => {
                i += 1;
            },
            _ => {
                proof {
                    lemma_path_lt_skip(a@, b@, i as int, mode);
                    lemma_path_lt_skip(b@, a@, i as int, mode);
                    assert(a@.skip(i as int)[0] == a@[i as int]);
                    assert(b@.skip(i as int)[0] == b@[i as int]);
                }
                return r;
            },
        }
    }
}

/// Compares two sort keys: category first, then path, under a wildcard
/// policy.
pub fn cmp(a: &(Category, Path), b: &(Category, Path), mode: UnderscoreOrder) -> (r: Ordering)
    ensures
        (r == Ordering::Less) == key_lt(key_view(*a), key_view(*b), mode),
        (r == Ordering::Equal) == (a.0 == b.0 && a.1@ == b.1@),
        (r == Ordering::Greater) == key_lt(key_view(*b), key_view(*a), mode),
{
    if a.0 < b.0 {
        Ordering::Less
    } else if a.0 > b.0 {
        Ordering::Greater
    } else {
        cmp_path(&a.1, &b.1, mode)
    }
}

} // verus!
