use remain::check::sorted;
use remain::decl::Decl;
use remain::decl::DeclShape;
use remain::decl::Input;
use remain::decl::Pattern;

fn variant(name: &str, attrs: &[&str]) -> Decl {
    Decl {
        attrs: attrs.iter().map(|s| s.to_string()).collect(),
        shape: DeclShape::Variant { ident: name.to_string() },
    }
}

fn field(name: &str, attrs: &[&str]) -> Decl {
    Decl {
        attrs: attrs.iter().map(|s| s.to_string()).collect(),
        shape: DeclShape::Field { name: Some(name.to_string()) },
    }
}

fn path_arm(segments: &[&str], attrs: &[&str]) -> Decl {
    Decl {
        attrs: attrs.iter().map(|s| s.to_string()).collect(),
        shape: DeclShape::Arm {
            pattern: Pattern::Qualified {
                path: segments.iter().map(|s| s.to_string()).collect(),
            },
        },
    }
}

fn wild_arm(attrs: &[&str]) -> Decl {
    Decl {
        attrs: attrs.iter().map(|s| s.to_string()).collect(),
        shape: DeclShape::Arm { pattern: Pattern::Wild },
    }
}

#[test]
fn test_attrs() {
    let mut test_enum = Input::Enum(vec![
        variant("A", &[]),
        variant("B", &[]),
        variant("Ignored", &["remain :: unsorted"]),
        variant("C", &[]),
        variant("AlsoIgnored", &["unsorted"]),
        variant("D", &[]),
    ]);
    let mut test_struct = Input::Struct(vec![
        field("a", &[]),
        field("b", &[]),
        field("ignored", &["unsorted"]),
        field("c", &[]),
        field("also_ignored", &["remain :: unsorted"]),
        field("d", &[]),
    ]);
    assert!(sorted(&mut test_enum).is_ok());
    assert!(sorted(&mut test_struct).is_ok());
}

#[test]
fn test_let() {
    let mut arms = Input::Let(vec![
        path_arm(&["TestEnum", "A"], &[]),
        path_arm(&["TestEnum", "Ignored"], &["remain :: unsorted"]),
        path_arm(&["TestEnum", "B"], &[]),
        path_arm(&["TestEnum", "AlsoIgnored"], &["unsorted"]),
        path_arm(&["TestEnum", "C"], &[]),
        wild_arm(&[]),
    ]);
    assert!(sorted(&mut arms).is_ok());
}

#[test]
fn test_match() {
    let mut arms = Input::Match(vec![
        path_arm(&["TestEnum", "A"], &[]),
        path_arm(&["TestEnum", "B"], &[]),
        path_arm(&["TestEnum", "Ignored"], &["unsorted"]),
        path_arm(&["TestEnum", "C"], &[]),
        path_arm(&["TestEnum", "AlsoIgnored"], &["remain :: unsorted"]),
        wild_arm(&[]),
    ]);
    assert!(sorted(&mut arms).is_ok());
}
