//! The declaration model: the four container kinds, their declarations,
//! and the two operations the checker needs from each declaration —
//! recognizing and stripping an exclusion annotation, and deriving a
//! `(Category, Path)` sort key.
//!
//! A declaration carries its annotations as the rendered paths of its
//! attributes (for example `"unsorted"` or `"remain :: unsorted"`), plus a
//! shape holding exactly the structure the key derivation reads.  The
//! driver that parses the source document converts its syntax tree into
//! and out of this model.

use crate::compare::Category;
use crate::compare::Path;
use crate::compare::wild_seg;
use vstd::prelude::*;

verus! {

/// The kind of an impl or trait member.
pub enum MemberKind {
    /// An associated constant with the given name.
    Const { ident: String },
    /// An associated type with the given name.
    AssocType { ident: String },
    /// A method with the given name.
    Method { ident: String },
    /// A macro-style member, identified by its full invocation path.
    MacroCall { path: Vec<String> },
    /// Any other member kind; it cannot be reduced to a sort key.
    Other,
}

/// The pattern of a match or let arm, reduced to what sorting reads.
pub enum Pattern {
    /// A name binding; the modifier flags record whether the binding is
    /// by reference, mutable, or carries a sub-pattern.
    Binding { by_ref: bool, mutable: bool, has_subpattern: bool, ident: String },
    /// A qualified path pattern.
    Qualified { path: Vec<String> },
    /// A structured (field) pattern, identified by its path.
    Structured { path: Vec<String> },
    /// A tuple-style pattern, identified by its path.
    TupleLike { path: Vec<String> },
    /// The catch-all pattern.
    Wild,
    /// An alternation `A | B | ...`; only the first alternative sorts.
    Alternation { cases: Vec<Pattern> },
    /// Any other pattern kind; it cannot be reduced to a sort key.
    Unsupported,
}

/// The shape of a declaration: the structure its sort key is derived from.
pub enum DeclShape {
    /// An enum variant with the given name.
    Variant { ident: String },
    /// A struct field; unnamed (positional) fields carry `None` and are
    /// rejected.
    Field { name: Option<String> },
    /// An impl or trait member.
    Member { kind: MemberKind },
    /// A match or let arm.
    Arm { pattern: Pattern },
}

/// One declaration of a container: its annotations and its shape.
pub struct Decl {
    /// The rendered paths of the declaration's attributes.
    pub attrs: Vec<String>,
    /// The structure the sort key is derived from.
    pub shape: DeclShape,
}

/// A container under check.
pub enum Input {
    /// The variants of an enum.
    Enum(Vec<Decl>),
    /// The members of an impl or trait.
    Impl(Vec<Decl>),
    /// The named fields of a struct.
    Struct(Vec<Decl>),
    /// The arms of a match expression.
    Match(Vec<Decl>),
    /// The arms of a let-match expression.
    Let(Vec<Decl>),
}

impl Input {
    /// The container's declarations, in source order.
    pub open spec fn decls(self) -> Seq<Decl> {
        match self {
            Input::Enum(decls) => decls@,
            Input::Impl(decls) => decls@,
            Input::Struct(decls) => decls@,
            Input::Match(decls) => decls@,
            Input::Let(decls) => decls@,
        }
    }
}

/// Whether two containers are of the same kind.
pub open spec fn same_kind(a: Input, b: Input) -> bool {
    match a {
        Input::Enum(_) => b is Enum,
        Input::Impl(_) => b is Impl,
        Input::Struct(_) => b is Struct,
        Input::Match(_) => b is Match,
        Input::Let(_) => b is Let,
    }
}

/// The two accepted spellings of the exclusion annotation, short and
/// qualified, treated as fully equivalent.
pub open spec fn attr_is_exclusion(a: Seq<char>) -> bool {
    a == "unsorted"@ || a == "remain :: unsorted"@
}

/// The position of the first exclusion annotation, if any.
pub open spec fn first_exclusion_index(attrs: Seq<Seq<char>>) -> Option<int>
    decreases attrs.len(),
{
    if attrs.len() == 0 {
        None
    } else if attr_is_exclusion(attrs[0]) {
        Some(0 as int)
    } else {
        match first_exclusion_index(attrs.drop_first()) {
            None => None,
            Some(i) => Some(i + 1),
        }
    }
}

/// A declaration is excluded from ordering when it carries an exclusion
/// annotation.
pub open spec fn decl_excluded(d: Decl) -> bool {
    first_exclusion_index(d.attrs.deep_view()) is Some
}

/// A declaration's annotations after the check: the first exclusion
/// annotation, if any, is removed; everything else is untouched.
pub open spec fn stripped_attrs(attrs: Vec<String>) -> Seq<String> {
    match first_exclusion_index(attrs.deep_view()) {
        None => attrs@,
        Some(i) => attrs@.remove(i),
    }
}

/// `first_exclusion_index` returns the least position carrying an
/// exclusion annotation, and `None` exactly when there is none.
pub proof fn lemma_first_exclusion_index(attrs: Seq<Seq<char>>)
    ensures
        match first_exclusion_index(attrs) {
            None => forall|j: int| 0 <= j < attrs.len() ==> !attr_is_exclusion(#[trigger] attrs[j]),
            Some(i) => 0 <= i < attrs.len() && attr_is_exclusion(attrs[i]) && forall|j: int|
                0 <= j < i ==> !attr_is_exclusion(#[trigger] attrs[j]),
        },
    decreases attrs.len(),
{
    if attrs.len() > 0 && !attr_is_exclusion(attrs[0]) {
        let tail = attrs.drop_first();
        lemma_first_exclusion_index(tail);
        match first_exclusion_index(tail) {
            None => {
                assert forall|j: int| 0 <= j < attrs.len() implies !attr_is_exclusion(
                    attrs[j],
                ) by {
                    if j > 0 {
                        assert(attrs[j] == tail[j - 1]);
                    }
                }
            },
            Some(i) => {
                assert(attrs[i + 1] == tail[i]);
                assert forall|j: int| 0 <= j < i + 1 implies !attr_is_exclusion(attrs[j]) by {
                    if j > 0 {
                        assert(attrs[j] == tail[j - 1]);
                    }
                }
            },
        }
    }
}

/// The category of a member kind: constants, then associated types, then
/// methods, then macro-style members, then everything else.
pub open spec fn member_category(k: MemberKind) -> Category {
    match k {
        MemberKind::Const { .. } => 0,
        MemberKind::AssocType { .. } => 1,
        MemberKind::Method { .. } => 2,
        MemberKind::MacroCall { .. } => 3,
        MemberKind::Other => 4,
    }
}

/// The category of a declaration shape; containers of a single kind are
/// uniformly category 0.
pub open spec fn shape_category(s: DeclShape) -> Category {
    match s {
        DeclShape::Member { kind } => member_category(kind),
        _ => 0,
    }
}

/// The path contributed by a non-alternation pattern.
pub open spec fn simple_pattern_path(p: Pattern) -> Option<Seq<Seq<char>>> {
    match p {
        Pattern::Binding { by_ref, mutable, has_subpattern, ident } => if !by_ref && !mutable
            && !has_subpattern {
            Some(seq![ident@])
        } else {
            None
        },
        Pattern::Qualified { path } => Some(path.deep_view()),
        Pattern::Structured { path } => Some(path.deep_view()),
        Pattern::TupleLike { path } => Some(path.deep_view()),
        Pattern::Wild => Some(seq![wild_seg()]),
        _ => None,
    }
}

/// The path of an arm's pattern; an alternation contributes the path of
/// its first alternative only.
pub open spec fn arm_path(p: Pattern) -> Option<Seq<Seq<char>>> {
    match p {
        Pattern::Alternation { cases } => if cases@.len() > 0 {
            simple_pattern_path(cases@[0])
        } else {
            None
        },
        _ => simple_pattern_path(p),
    }
}

/// The path of a declaration shape, or `None` for an unsupported shape.
pub open spec fn shape_path(s: DeclShape) -> Option<Seq<Seq<char>>> {
    match s {
        DeclShape::Variant { ident } => Some(seq![ident@]),
        DeclShape::Field { name } => match name {
            Some(name) => Some(seq![name@]),
            None => None,
        },
        DeclShape::Member { kind } => match kind {
            MemberKind::Const { ident } => Some(seq![ident@]),
            MemberKind::AssocType { ident } => Some(seq![ident@]),
            MemberKind::Method { ident } => Some(seq![ident@]),
            MemberKind::MacroCall { path } => Some(path.deep_view()),
            MemberKind::Other => None,
        },
        DeclShape::Arm { pattern } => arm_path(pattern),
    }
}

/// The sort key of a declaration shape, or `None` for an unsupported
/// shape.
pub open spec fn shape_key(s: DeclShape) -> Option<(Category, Seq<Seq<char>>)> {
    match shape_path(s) {
        Some(p) => Some((shape_category(s), p)),
        None => None,
    }
}

/// Recognizes both spellings of the exclusion annotation.
pub fn is_exclusion_attr(attr: &String) -> (r: bool)
    ensures
        r == attr_is_exclusion(attr@),
{
    let short: String = "unsorted".to_owned();
    let qualified: String = "remain :: unsorted".to_owned();
    *attr == short || *attr == qualified
}

/// Removes the first exclusion annotation, if one is present, and reports
/// whether the declaration is excluded from ordering.
pub fn remove_unsorted_attr(attrs: &mut Vec<String>) -> (found: bool)
    ensures
        found == (first_exclusion_index(old(attrs).deep_view()) is Some),
        final(attrs)@ == stripped_attrs(*old(attrs)),
        !found ==> *final(attrs) == *old(attrs),
{
    let n = attrs.len();
    let mut i: usize = 0;
    loop
        invariant
            i <= n,
            n == attrs@.len(),
            *attrs == *old(attrs),
            forall|j: int| 0 <= j < i ==> !attr_is_exclusion(#[trigger] attrs.deep_view()[j]),
        decreases n - i,
    {
        proof {
            lemma_first_exclusion_index(attrs.deep_view());
        }
        if i >= n {
            return false;
        }
        if is_exclusion_attr(&attrs[i]) {
            assert(attrs.deep_view()[i as int] == attrs@[i as int]@);
            attrs.remove(i);
            return true;
        }
        assert(attrs.deep_view()[i as int] == attrs@[i as int]@);
        i += 1;
    }
}

/// Clones a list of segments; the copy holds the same strings.
pub(crate) fn clone_strings(v: &Vec<String>) -> (r: Vec<String>)
    ensures
        r@ == v@,
{
    let n = v.len();
    let mut r: Vec<String> = Vec::new();
    let mut i: usize = 0;
    while i < n
        invariant
            i <= n,
            n == v@.len(),
            r@ =~= v@.subrange(0, i as int),
        decreases n - i,
    {
        r.push(v[i].clone());
        i += 1;
    }
    proof {
        assert(r@ =~= v@);
    }
    r
}

/// Builds the one-segment path of a plain name.
fn single_segment(name: &String) -> (p: Path)
    ensures
        p@ == seq![name@],
{
    let p = Path { segments: vec![name.clone()] };
    proof {
        assert(p@ =~= seq![name@]);
    }
    p
}

/// Builds a path from cloned segments.
fn multi_segment(path: &Vec<String>) -> (p: Path)
    ensures
        p@ == path.deep_view(),
{
    let p = Path { segments: clone_strings(path) };
    proof {
        assert(p@ =~= path.deep_view());
    }
    p
}

/// Builds the path holding only the reserved wildcard segment.
fn wild_path() -> (p: Path)
    ensures
        p@ == seq![wild_seg()],
{
    let underscore: String = "_".to_owned();
    let p = Path { segments: vec![underscore] };
    proof {
        assert(p@ =~= seq![wild_seg()]);
    }
    p
}

/// The category of a declaration, the most significant part of its key.
pub fn category(shape: &DeclShape) -> (c: Category)
    ensures
        c == shape_category(*shape),
{
    match shape {
        DeclShape::Member { kind } => match kind {
            MemberKind::Const { .. } => 0,
            MemberKind::AssocType { .. } => 1,
            MemberKind::Method { .. } => 2,
            MemberKind::MacroCall { .. } => 3,
            MemberKind::Other => 4,
        },
        _ => 0,
    }
}

/// The path of a non-alternation pattern, or `None` when the pattern kind
/// is unsupported.
fn simple_pattern_to_path(pat: &Pattern) -> (r: Option<Path>)
    ensures
        match r {
            Some(p) => simple_pattern_path(*pat) == Some(p@),
            None => simple_pattern_path(*pat) is None,
        },
{
    match pat {
        Pattern::Binding { by_ref, mutable, has_subpattern, ident } => {
            if !*by_ref && !*mutable && !*has_subpattern {
                Some(single_segment(ident))
            } else {
                None
            }
        },
        Pattern::Qualified { path } => Some(multi_segment(path)),
        Pattern::Structured { path } => Some(multi_segment(path)),
        Pattern::TupleLike { path } => Some(multi_segment(path)),
        Pattern::Wild => Some(wild_path()),
        _ => None,
    }
}

/// The path of an arm's pattern; an alternation sorts by its first
/// alternative only.
fn arm_to_path(pattern: &Pattern) -> (r: Option<Path>)
    ensures
        match r {
            Some(p) => arm_path(*pattern) == Some(p@),
            None => arm_path(*pattern) is None,
        },
{
    match pattern {
        Pattern::Alternation { cases } => {
            if cases.len() == 0 {
                None
            } else {
                simple_pattern_to_path(&cases[0])
            }
        },
        _ => simple_pattern_to_path(pattern),
    }
}

/// Derives a declaration's path, or `None` when its shape is unsupported.
pub fn to_path(shape: &DeclShape) -> (r: Option<Path>)
    ensures
        match r {
            Some(p) => shape_path(*shape) == Some(p@),
            None => shape_path(*shape) is None,
        },
{
    match shape {
        DeclShape::Variant { ident } => Some(single_segment(ident)),
        DeclShape::Field { name } => match name {
            Some(name) => Some(single_segment(name)),
            None => None,
        },
        DeclShape::Member { kind } => match kind {
            MemberKind::Const { ident } => Some(single_segment(ident)),
            MemberKind::AssocType { ident } => Some(single_segment(ident)),
            MemberKind::Method { ident } => Some(single_segment(ident)),
            MemberKind::MacroCall { path } => Some(multi_segment(path)),
            MemberKind::Other => None,
        },
        DeclShape::Arm { pattern } => arm_to_path(pattern),
    }
}

} // verus!
