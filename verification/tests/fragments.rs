use component_group::component_field::ComponentField;
use component_group::synthesis::{piece, pieces, Piece};
use component_group::text::{append_escaped_char, append_separated, append_string_literal};

fn required<'a>(ident: &'a String, ty: &'a String) -> ComponentField<'a> {
    ComponentField { ident, ty, is_optional: false }
}

fn optional<'a>(ident: &'a String, ty: &'a String) -> ComponentField<'a> {
    ComponentField { ident, ty, is_optional: true }
}

#[test]
fn joinable_of_each_kind() {
    let (position, animation) = ("position".to_string(), "animation".to_string());
    let (position_ty, animation_ty) = ("Position".to_string(), "Animation".to_string());
    assert_eq!(required(&position, &position_ty).joinable(), "&position");
    assert_eq!(optional(&animation, &animation_ty).joinable(), "animation.maybe()");
}

#[test]
fn cloned_of_each_kind() {
    let (position, animation) = ("position".to_string(), "animation".to_string());
    let (position_ty, animation_ty) = ("Position".to_string(), "Animation".to_string());
    assert_eq!(required(&position, &position_ty).cloned(), "Clone::clone(position)");
    assert_eq!(optional(&animation, &animation_ty).cloned(), "animation.cloned()");
}

#[test]
fn read_value_of_each_kind() {
    let (position, animation) = ("position".to_string(), "animation".to_string());
    let (position_ty, animation_ty) = ("Position".to_string(), "Animation".to_string());
    assert_eq!(
        required(&position, &position_ty).read_value(),
        "position.get(entity).cloned().expect(\"bug: expected a Position component to be present\")"
    );
    assert_eq!(optional(&animation, &animation_ty).read_value(), "animation.get(entity).cloned()");
}

#[test]
fn add_to_builder_of_each_kind() {
    let (position, animation) = ("position".to_string(), "animation".to_string());
    let (position_ty, animation_ty) = ("Position".to_string(), "Animation".to_string());
    assert_eq!(required(&position, &position_ty).add_to_builder(), "builder = builder.with(self.position);");
    assert_eq!(
        optional(&animation, &animation_ty).add_to_builder(),
        "if let Some(animation) = self.animation { builder = builder.with(animation); }"
    );
}

#[test]
fn update_value_of_each_kind() {
    let (position, animation) = ("position".to_string(), "animation".to_string());
    let (position_ty, animation_ty) = ("Position".to_string(), "Animation".to_string());
    assert_eq!(required(&position, &position_ty).update_value(), "position.insert(entity, self.position)?;");
    assert_eq!(
        optional(&animation, &animation_ty).update_value(),
        "match self.animation { Some(value) => animation.insert(entity, value)?, None => animation.remove(entity), };"
    );
}

#[test]
fn failure_messages_name_the_payload_type() {
    let (health, health_ty) = ("health".to_string(), "Health".to_string());
    let field = required(&health, &health_ty);
    assert_eq!(field.load_failure(), "bug: expected a Health component to be present");
    assert_eq!(field.remove_failure(), "expected a Health component to be present");
}

#[test]
fn message_is_written_as_a_string_literal() {
    let (size, size_ty) = ("size".to_string(), "Sized < { \"a\\b\" . len () } >".to_string());
    let code = required(&size, &size_ty).read_value();
    assert_eq!(
        code,
        "size.get(entity).cloned().expect(\"bug: expected a Sized < { \\\"a\\\\b\\\" . len () } > component to be present\")"
    );
    // the literal denotes the message
    let parsed: syn::ExprMethodCall = syn::parse_str(&code).unwrap();
    assert_eq!(parsed.method.to_string(), "expect");
    match parsed.args.first() {
        Some(syn::Expr::Lit(syn::ExprLit { lit: syn::Lit::Str(message), .. })) => {
            assert_eq!(message.value(), required(&size, &size_ty).load_failure());
        },
        _ => panic!("expected a string literal"),
    }
}

#[test]
fn escapes_of_single_characters() {
    for (c, expected) in [
        ('"', "\\\""),
        ('\\', "\\\\"),
        ('\n', "\\n"),
        ('\r', "\\r"),
        ('\t', "\\t"),
        ('\0', "\\0"),
        ('a', "a"),
        ('\'', "'"),
        ('é', "é"),
    ] {
        let mut out = "x".to_string();
        append_escaped_char(&mut out, c);
        assert_eq!(out, format!("x{}", expected));
    }
}

#[test]
fn string_literal_round_trips_through_the_parser() {
    for text in ["", "plain", "two\nlines\r\n", "tab\there", "quote \" and \\ backslash", "nul \0 é ✓"] {
        let mut out = String::new();
        append_string_literal(&mut out, text);
        let parsed: syn::LitStr = syn::parse_str(&out).unwrap();
        assert_eq!(parsed.value(), text);
    }
}

#[test]
fn string_literal_is_appended() {
    let mut out = "f(".to_string();
    append_string_literal(&mut out, "a\"b");
    assert_eq!(out, "f(\"a\\\"b\"");
}

#[test]
fn separated_lists() {
    let parts = |items: &[&str]| items.iter().map(|item| item.to_string()).collect::<Vec<String>>();

    let mut out = "(".to_string();
    append_separated(&mut out, &parts(&[]), ", ");
    assert_eq!(out, "(");

    let mut out = "(".to_string();
    append_separated(&mut out, &parts(&["a"]), ", ");
    assert_eq!(out, "(a");

    let mut out = "(".to_string();
    append_separated(&mut out, &parts(&["a", "b", "c"]), ", ");
    assert_eq!(out, "(a, b, c");
}

#[test]
fn pieces_of_each_kind() {
    let (position, animation) = ("position".to_string(), "animation".to_string());
    let (position_ty, animation_ty) = ("Position".to_string(), "Animation".to_string());
    let fields = vec![required(&position, &position_ty), optional(&animation, &animation_ty)];
    let expected = [
        (Piece::Name, ["position", "animation"]),
        (Piece::MutName, ["mut position", "mut animation"]),
        (Piece::ReadStorage, ["specs::ReadStorage< Position >", "specs::ReadStorage< Animation >"]),
        (Piece::WriteStorage, ["specs::WriteStorage< Position >", "specs::WriteStorage< Animation >"]),
        (Piece::Joinable, ["&position", "animation.maybe()"]),
        (Piece::CloneInto, ["position : Clone::clone(position)", "animation : animation.cloned()"]),
        (
            Piece::ReadInto,
            [
                "position : position.get(entity).cloned().expect(\"bug: expected a Position component to be present\")",
                "animation : animation.get(entity).cloned()",
            ],
        ),
        (
            Piece::RemoveInto,
            [
                "position : position.remove(entity).expect(\"expected a Position component to be present\")",
                "animation : animation.remove(entity)",
            ],
        ),
        (
            Piece::AddToBuilder,
            [
                "builder = builder.with(self.position);",
                "if let Some(animation) = self.animation { builder = builder.with(animation); }",
            ],
        ),
        (
            Piece::UpdateValue,
            [
                "position.insert(entity, self.position)?;",
                "match self.animation { Some(value) => animation.insert(entity, value)?, None => animation.remove(entity), };",
            ],
        ),
    ];
    for (kind, texts) in expected {
        assert_eq!(pieces(&fields, kind), texts);
        assert_eq!(piece(&fields[0], kind), texts[0]);
        assert_eq!(piece(&fields[1], kind), texts[1]);
    }
}
