use component_group::component_field::{inner_option_type, ComponentField};
use component_group::syntax::{
    Field, GenericArgument, Path, PathArguments, PathSegment, Type, TypeForm,
};

fn segment(name: &str, arguments: PathArguments) -> PathSegment {
    PathSegment { ident: name.to_string(), arguments }
}

fn angle(args: Vec<GenericArgument>) -> PathArguments {
    PathArguments::AngleBracketed { turbofish: false, args }
}

fn of_type(tokens: &str) -> Vec<GenericArgument> {
    vec![GenericArgument::Type(tokens.to_string())]
}

fn path_type(tokens: &str, leading_colon: bool, segments: Vec<PathSegment>) -> Type {
    Type {
        tokens: tokens.to_string(),
        form: TypeForm::Path { qualified_self: false, path: Path { leading_colon, segments } },
    }
}

fn field(name: &str, ty: Type) -> Field {
    Field { ident: name.to_string(), ty }
}

/// Classifies a field named `value` of the type and returns the payload
/// type with the optional mark.
fn classify(ty: Type) -> (String, bool) {
    let field = field("value", ty);
    let classified = ComponentField::from(&field);
    assert_eq!(classified.ident, "value");
    (classified.ty.clone(), classified.is_optional)
}

#[test]
fn plain_type_is_required() {
    let field = field("position", path_type("Position", false, vec![segment("Position", PathArguments::Bare)]));
    let classified = ComponentField::from(&field);
    assert_eq!(classified.ident, "position");
    assert_eq!(classified.ty, "Position");
    assert!(!classified.is_optional);
}

#[test]
fn option_is_optional_with_inner_payload() {
    let field = field(
        "animation",
        path_type("Option < Animation >", false, vec![segment("Option", angle(of_type("Animation")))]),
    );
    let classified = ComponentField::from(&field);
    assert_eq!(classified.ident, "animation");
    assert_eq!(classified.ty, "Animation");
    assert!(classified.is_optional);
}

#[test]
fn nested_option_unwraps_one_level() {
    let ty = path_type(
        "Option < Option < Animation > >",
        false,
        vec![segment("Option", angle(of_type("Option < Animation >")))],
    );
    assert_eq!(classify(ty), ("Option < Animation >".to_string(), true));
}

#[test]
fn fully_qualified_option_is_required() {
    let ty = path_type(
        "std :: option :: Option < Animation >",
        false,
        vec![
            segment("std", PathArguments::Bare),
            segment("option", PathArguments::Bare),
            segment("Option", angle(of_type("Animation"))),
        ],
    );
    assert_eq!(classify(ty), ("std :: option :: Option < Animation >".to_string(), false));
}

#[test]
fn leading_colon_is_required() {
    let ty = path_type(":: Option < Animation >", true, vec![segment("Option", angle(of_type("Animation")))]);
    assert_eq!(classify(ty), (":: Option < Animation >".to_string(), false));
}

#[test]
fn turbofish_is_required() {
    let ty = path_type(
        "Option :: < Animation >",
        false,
        vec![segment(
            "Option",
            PathArguments::AngleBracketed { turbofish: true, args: of_type("Animation") },
        )],
    );
    assert_eq!(classify(ty), ("Option :: < Animation >".to_string(), false));
}

#[test]
fn other_wrapper_is_required() {
    let ty = path_type("Vec < Animation >", false, vec![segment("Vec", angle(of_type("Animation")))]);
    assert_eq!(classify(ty), ("Vec < Animation >".to_string(), false));
}

#[test]
fn option_without_arguments_is_required() {
    let ty = path_type("Option", false, vec![segment("Option", PathArguments::Bare)]);
    assert_eq!(classify(ty), ("Option".to_string(), false));
}

#[test]
fn option_with_parentheses_is_required() {
    let ty = path_type("Option (Animation)", false, vec![segment("Option", PathArguments::Parenthesized)]);
    assert_eq!(classify(ty), ("Option (Animation)".to_string(), false));
}

#[test]
fn option_with_two_arguments_is_required() {
    let ty = path_type(
        "Option < A , B >",
        false,
        vec![segment(
            "Option",
            angle(vec![GenericArgument::Type("A".to_string()), GenericArgument::Type("B".to_string())]),
        )],
    );
    assert_eq!(classify(ty), ("Option < A , B >".to_string(), false));
}

#[test]
fn option_with_no_argument_between_brackets_is_required() {
    let ty = path_type("Option < >", false, vec![segment("Option", angle(vec![]))]);
    assert_eq!(classify(ty), ("Option < >".to_string(), false));
}

#[test]
fn option_of_lifetime_const_or_binding_is_required() {
    for (tokens, argument) in [
        ("Option < 'a >", GenericArgument::Lifetime),
        ("Option < { 1 } >", GenericArgument::Const),
        ("Option < Item = u8 >", GenericArgument::Other),
    ] {
        let ty = path_type(tokens, false, vec![segment("Option", angle(vec![argument]))]);
        assert_eq!(classify(ty), (tokens.to_string(), false));
    }
}

#[test]
fn qualified_self_is_required() {
    let ty = Type {
        tokens: "< T as Trait > :: Option < Animation >".to_string(),
        form: TypeForm::Path {
            qualified_self: true,
            path: Path { leading_colon: false, segments: vec![segment("Option", angle(of_type("Animation")))] },
        },
    };
    assert_eq!(classify(ty), ("< T as Trait > :: Option < Animation >".to_string(), false));
}

#[test]
fn other_forms_are_required() {
    for tokens in ["& 'static Position", "(Position , Health)", "[Position ; 2]", "* const Position", "dyn Component"] {
        let ty = Type { tokens: tokens.to_string(), form: TypeForm::Other };
        assert_eq!(classify(ty), (tokens.to_string(), false));
    }
}

#[test]
fn lower_case_option_is_required() {
    let ty = path_type("option < Animation >", false, vec![segment("option", angle(of_type("Animation")))]);
    assert_eq!(classify(ty), ("option < Animation >".to_string(), false));
}

#[test]
fn inner_option_type_of_paths() {
    let option = Path { leading_colon: false, segments: vec![segment("Option", angle(of_type("Health")))] };
    assert_eq!(inner_option_type(&option), Some(&"Health".to_string()));

    let qualified = Path {
        leading_colon: false,
        segments: vec![segment("option", PathArguments::Bare), segment("Option", angle(of_type("Health")))],
    };
    assert_eq!(inner_option_type(&qualified), None);

    let empty = Path { leading_colon: false, segments: vec![] };
    assert_eq!(inner_option_type(&empty), None);
}
