use remain::check::Error;
use remain::check::check_decls;
use remain::check::sorted;
use remain::decl::Decl;
use remain::decl::DeclShape;
use remain::decl::Input;
use remain::decl::MemberKind;
use remain::decl::Pattern;

fn variant(name: &str, attrs: &[&str]) -> Decl {
    Decl {
        attrs: attrs.iter().map(|s| s.to_string()).collect(),
        shape: DeclShape::Variant { ident: name.to_string() },
    }
}

fn member(kind: MemberKind) -> Decl {
    Decl { attrs: Vec::new(), shape: DeclShape::Member { kind } }
}

fn arm(pattern: Pattern) -> Decl {
    Decl { attrs: Vec::new(), shape: DeclShape::Arm { pattern } }
}

fn ident_pattern(name: &str) -> Pattern {
    Pattern::Binding {
        by_ref: false,
        mutable: false,
        has_subpattern: false,
        ident: name.to_string(),
    }
}

fn segments(path: &[&str]) -> Vec<String> {
    path.iter().map(|s| s.to_string()).collect()
}

fn violation(r: Result<(), Error>) -> (Vec<String>, Vec<String>) {
    match r {
        Err(Error::OrderViolation { lesser, greater }) => (lesser.segments, greater.segments),
        _ => panic!("expected an order violation"),
    }
}

#[test]
fn plain_sorted_passes() {
    let mut decls = vec![variant("A", &[]), variant("B", &[]), variant("C", &[])];
    assert!(check_decls(&mut decls).is_ok());
}

#[test]
fn plain_unsorted_fails() {
    let mut decls = vec![variant("B", &[]), variant("A", &[])];
    let (lesser, greater) = violation(check_decls(&mut decls));
    assert_eq!(lesser, vec!["A".to_string()]);
    assert_eq!(greater, vec!["B".to_string()]);
}

#[test]
fn empty_container_passes() {
    let mut input = Input::Enum(Vec::new());
    assert!(sorted(&mut input).is_ok());
}

#[test]
fn single_declaration_passes() {
    let mut input = Input::Enum(vec![variant("Only", &[])]);
    assert!(sorted(&mut input).is_ok());
}

#[test]
fn excluded_declaration_is_skipped() {
    // Sorted except for one excluded declaration in the middle.
    let mut decls = vec![
        variant("A", &[]),
        variant("B", &[]),
        variant("Zzz", &["unsorted"]),
        variant("C", &[]),
        variant("D", &[]),
    ];
    assert!(check_decls(&mut decls).is_ok());
    // The marker is consumed; the declaration itself stays in place.
    assert_eq!(decls.len(), 5);
    assert!(decls[2].attrs.is_empty());
}

#[test]
fn exclusion_spellings_are_equivalent() {
    let mut short = vec![variant("B", &["unsorted"]), variant("A", &[])];
    let mut qualified = vec![variant("B", &["remain :: unsorted"]), variant("A", &[])];
    assert!(check_decls(&mut short).is_ok());
    assert!(check_decls(&mut qualified).is_ok());
}

#[test]
fn only_first_marker_is_removed() {
    let mut decls = vec![variant(
        "Z",
        &["derive", "unsorted", "remain :: unsorted", "serde"],
    )];
    assert!(check_decls(&mut decls).is_ok());
    assert_eq!(
        decls[0].attrs,
        vec![
            "derive".to_string(),
            "remain :: unsorted".to_string(),
            "serde".to_string()
        ]
    );
}

#[test]
fn all_excluded_passes() {
    let mut decls = vec![variant("B", &["unsorted"]), variant("A", &["unsorted"])];
    assert!(check_decls(&mut decls).is_ok());
}

#[test]
fn wildcard_last_passes() {
    let mut input = Input::Match(vec![
        arm(Pattern::Qualified { path: segments(&["E", "A"]) }),
        arm(Pattern::Qualified { path: segments(&["E", "B"]) }),
        arm(Pattern::Wild),
    ]);
    assert!(sorted(&mut input).is_ok());
}

#[test]
fn wildcard_first_passes() {
    // Pass one (wildcard sorts first) already accepts this arrangement.
    let mut input = Input::Match(vec![
        arm(Pattern::Wild),
        arm(Pattern::Qualified { path: segments(&["E", "A"]) }),
        arm(Pattern::Qualified { path: segments(&["E", "B"]) }),
    ]);
    assert!(sorted(&mut input).is_ok());
}

#[test]
fn wildcard_in_middle_fails() {
    let mut input = Input::Match(vec![
        arm(Pattern::Qualified { path: segments(&["E", "A"]) }),
        arm(Pattern::Wild),
        arm(Pattern::Qualified { path: segments(&["E", "B"]) }),
    ]);
    assert!(sorted(&mut input).is_err());
}

#[test]
fn genuine_inversion_reports_reference() {
    // Keys A, B, (excluded), D, C: C is out of place and should have
    // come before D.
    let mut decls = vec![
        variant("A", &[]),
        variant("B", &[]),
        variant("Ignored", &["unsorted"]),
        variant("D", &[]),
        variant("C", &[]),
    ];
    let (lesser, greater) = violation(check_decls(&mut decls));
    assert_eq!(lesser, vec!["C".to_string()]);
    assert_eq!(greater, vec!["D".to_string()]);
}

#[test]
fn category_grouping_beats_names() {
    // Sorted by category (const, type, method) even though the names
    // alone are unsorted.
    let mut input = Input::Impl(vec![
        member(MemberKind::Const { ident: "ZETA".to_string() }),
        member(MemberKind::AssocType { ident: "Alpha".to_string() }),
        member(MemberKind::Method { ident: "a".to_string() }),
    ]);
    assert!(sorted(&mut input).is_ok());
}

#[test]
fn same_category_out_of_order_fails() {
    // X and Y are consts separated by a method: the consts must be
    // grouped, so the member after Y's correct slot is the method.
    let mut input = Input::Impl(vec![
        member(MemberKind::Const { ident: "X".to_string() }),
        member(MemberKind::Method { ident: "g".to_string() }),
        member(MemberKind::Const { ident: "Y".to_string() }),
    ]);
    let (lesser, greater) = violation(sorted(&mut input));
    assert_eq!(lesser, vec!["Y".to_string()]);
    assert_eq!(greater, vec!["g".to_string()]);
}

#[test]
fn reference_is_past_equal_run() {
    // Keys A, B, B, D, B: the violator B equals the run at positions 1
    // and 2, so the reference is the element one past that run.
    let mut decls = vec![
        variant("A", &[]),
        variant("B", &[]),
        variant("B", &[]),
        variant("D", &[]),
        variant("B", &[]),
    ];
    let (lesser, greater) = violation(check_decls(&mut decls));
    assert_eq!(lesser, vec!["B".to_string()]);
    assert_eq!(greater, vec!["D".to_string()]);
}

#[test]
fn violation_at_second_position_references_first() {
    let mut decls = vec![variant("C", &[]), variant("A", &[]), variant("B", &[])];
    let (lesser, greater) = violation(check_decls(&mut decls));
    assert_eq!(lesser, vec!["A".to_string()]);
    assert_eq!(greater, vec!["C".to_string()]);
}

#[test]
fn shorter_path_sorts_before_its_extension() {
    let mut input = Input::Match(vec![
        arm(Pattern::Qualified { path: segments(&["E"]) }),
        arm(Pattern::Qualified { path: segments(&["E", "A"]) }),
    ]);
    assert!(sorted(&mut input).is_ok());
    let mut reversed = Input::Match(vec![
        arm(Pattern::Qualified { path: segments(&["E", "A"]) }),
        arm(Pattern::Qualified { path: segments(&["E"]) }),
    ]);
    assert!(sorted(&mut reversed).is_err());
}

#[test]
fn alternation_sorts_by_first_alternative() {
    let mut input = Input::Match(vec![
        arm(Pattern::Alternation {
            cases: vec![
                Pattern::Qualified { path: segments(&["E", "A"]) },
                Pattern::Qualified { path: segments(&["E", "Z"]) },
            ],
        }),
        arm(Pattern::Qualified { path: segments(&["E", "B"]) }),
    ]);
    assert!(sorted(&mut input).is_ok());
}

#[test]
fn binding_and_structured_patterns_sort() {
    let mut input = Input::Let(vec![
        arm(ident_pattern("alpha")),
        arm(Pattern::Structured { path: segments(&["beta"]) }),
        arm(Pattern::TupleLike { path: segments(&["gamma"]) }),
    ]);
    assert!(sorted(&mut input).is_ok());
}

#[test]
fn unnamed_field_is_unsupported() {
    let mut input = Input::Struct(vec![
        Decl { attrs: Vec::new(), shape: DeclShape::Field { name: Some("a".to_string()) } },
        Decl { attrs: Vec::new(), shape: DeclShape::Field { name: None } },
    ]);
    match sorted(&mut input) {
        Err(Error::UnsupportedDeclaration { index }) => assert_eq!(index, 1),
        _ => panic!("expected an unsupported declaration"),
    }
}

#[test]
fn unsupported_member_kind_is_rejected() {
    let mut input = Input::Impl(vec![member(MemberKind::Other)]);
    assert!(matches!(
        sorted(&mut input),
        Err(Error::UnsupportedDeclaration { index: 0 })
    ));
}

#[test]
fn unsupported_pattern_is_rejected() {
    let mut input = Input::Match(vec![arm(Pattern::Unsupported)]);
    assert!(matches!(
        sorted(&mut input),
        Err(Error::UnsupportedDeclaration { index: 0 })
    ));
}

#[test]
fn modified_binding_is_rejected() {
    let mut input = Input::Match(vec![arm(Pattern::Binding {
        by_ref: true,
        mutable: false,
        has_subpattern: false,
        ident: "x".to_string(),
    })]);
    assert!(matches!(
        sorted(&mut input),
        Err(Error::UnsupportedDeclaration { index: 0 })
    ));
}

#[test]
fn empty_alternation_is_rejected() {
    let mut input = Input::Match(vec![arm(Pattern::Alternation { cases: Vec::new() })]);
    assert!(matches!(
        sorted(&mut input),
        Err(Error::UnsupportedDeclaration { index: 0 })
    ));
}

#[test]
fn excluded_declaration_may_be_unsupported() {
    // Exclusion is checked before key derivation, so an excluded
    // declaration never needs a derivable key.
    let mut input = Input::Impl(vec![
        member(MemberKind::Const { ident: "A".to_string() }),
        Decl { attrs: vec!["unsorted".to_string()], shape: DeclShape::Member { kind: MemberKind::Other } },
        member(MemberKind::Const { ident: "B".to_string() }),
    ]);
    assert!(sorted(&mut input).is_ok());
}

#[test]
fn check_is_idempotent_without_markers() {
    let mut decls = vec![variant("A", &[]), variant("B", &[]), variant("C", &[])];
    assert!(check_decls(&mut decls).is_ok());
    assert!(check_decls(&mut decls).is_ok());
    assert!(decls.iter().all(|d| d.attrs.is_empty()));
}

#[test]
fn case_sensitive_order() {
    // Character order is case-sensitive: all uppercase letters sort
    // before lowercase ones.
    let mut sorted_decls = vec![variant("Zed", &[]), variant("alpha", &[])];
    assert!(check_decls(&mut sorted_decls).is_ok());
    let mut unsorted_decls = vec![variant("alpha", &[]), variant("Zed", &[])];
    assert!(check_decls(&mut unsorted_decls).is_err());
}

#[test]
fn macro_members_group_after_methods() {
    let mut input = Input::Impl(vec![
        member(MemberKind::Method { ident: "run".to_string() }),
        member(MemberKind::MacroCall { path: segments(&["std", "println"]) }),
    ]);
    assert!(sorted(&mut input).is_ok());
    let mut reversed = Input::Impl(vec![
        member(MemberKind::MacroCall { path: segments(&["std", "println"]) }),
        member(MemberKind::Method { ident: "run".to_string() }),
    ]);
    assert!(sorted(&mut reversed).is_err());
}

#[test]
fn multi_segment_paths_compare_by_segment() {
    // Equal first segments fall through to the second segment.
    let mut input = Input::Match(vec![
        arm(Pattern::Qualified { path: segments(&["E", "A", "x"]) }),
        arm(Pattern::Qualified { path: segments(&["E", "B"]) }),
    ]);
    assert!(sorted(&mut input).is_ok());
    let mut reversed = Input::Match(vec![
        arm(Pattern::Qualified { path: segments(&["E", "B"]) }),
        arm(Pattern::Qualified { path: segments(&["E", "A", "x"]) }),
    ]);
    let (lesser, greater) = violation(sorted(&mut reversed));
    assert_eq!(lesser, segments(&["E", "A", "x"]));
    assert_eq!(greater, segments(&["E", "B"]));
}
