use component_group::component_field::ComponentField;
use component_group::protocol::{
    create, exactly_one, first_match, missing_required, record_from, update, Attach, FieldValue,
    LookupError, Row, Write,
};

struct Names {
    idents: Vec<String>,
    types: Vec<String>,
}

/// position: Position, health: Health, animation: Option<Animation>
fn names() -> Names {
    Names {
        idents: ["position", "health", "animation"].iter().map(|name| name.to_string()).collect(),
        types: ["Position", "Health", "Animation"].iter().map(|name| name.to_string()).collect(),
    }
}

fn fields(names: &Names) -> Vec<ComponentField<'_>> {
    (0..3)
        .map(|i| ComponentField { ident: &names.idents[i], ty: &names.types[i], is_optional: i == 2 })
        .collect()
}

fn row(entity: u32, values: [Option<i64>; 3]) -> Row<u32, i64> {
    Row { entity, values: values.to_vec() }
}

#[test]
fn missing_required_finds_the_first() {
    let names = names();
    let fields = fields(&names);
    assert_eq!(missing_required(&fields, &vec![Some(1), Some(2), Some(3)]), None);
    assert_eq!(missing_required(&fields, &vec![Some(1), Some(2), None]), None);
    assert_eq!(missing_required(&fields, &vec![Some(1), None, None]), Some(1));
    assert_eq!(missing_required(&fields, &vec![None, None, Some(3)]), Some(0));
    assert_eq!(missing_required::<i64>(&fields, &vec![None, None, None]), Some(0));
    assert_eq!(missing_required::<i64>(&vec![], &vec![]), None);
}

#[test]
fn record_from_values() {
    let names = names();
    let fields = fields(&names);
    assert_eq!(
        record_from(&fields, vec![Some(10), Some(20), Some(30)]),
        [FieldValue::Required(10), FieldValue::Required(20), FieldValue::Optional(Some(30))]
    );
    assert_eq!(
        record_from(&fields, vec![Some(10), Some(20), None]),
        [FieldValue::Required(10), FieldValue::Required(20), FieldValue::Optional(None)]
    );
    assert_eq!(record_from::<i64>(&vec![], vec![]), []);
}

#[test]
fn first_match_takes_the_first_whole_group() {
    let names = names();
    let fields = fields(&names);
    let rows = vec![
        row(4, [None, Some(1), Some(2)]),
        row(9, [Some(3), None, None]),
        row(2, [Some(5), Some(6), None]),
        row(7, [Some(7), Some(8), Some(9)]),
    ];
    assert_eq!(
        first_match(&fields, rows),
        Some((2, vec![FieldValue::Required(5), FieldValue::Required(6), FieldValue::Optional(None)]))
    );
}

#[test]
fn first_match_of_nothing() {
    let names = names();
    let fields = fields(&names);
    assert_eq!(first_match::<u32, i64>(&fields, vec![]), None);
    assert_eq!(first_match(&fields, vec![row(1, [None, None, Some(1)]), row(2, [Some(1), None, Some(1)])]), None);
}

#[test]
fn exactly_one_of_plain_rows() {
    let names = names();
    let fields = fields(&names);
    assert_eq!(exactly_one::<u32, i64>(&fields, vec![]), Err(LookupError::NoMatch));
    assert_eq!(exactly_one(&fields, vec![row(1, [Some(1), None, Some(3)])]), Err(LookupError::NoMatch));
    assert_eq!(
        exactly_one(&fields, vec![row(1, [Some(1), None, Some(3)]), row(2, [Some(4), Some(5), None])]),
        Ok(vec![FieldValue::Required(4), FieldValue::Required(5), FieldValue::Optional(None)])
    );
    assert_eq!(
        exactly_one(
            &fields,
            vec![
                row(1, [Some(1), Some(2), Some(3)]),
                row(2, [None, None, None]),
                row(3, [Some(4), Some(5), None]),
            ]
        ),
        Err(LookupError::Ambiguous)
    );
}

#[test]
fn create_attaches_what_is_there() {
    assert_eq!(
        create(vec![FieldValue::Required(10), FieldValue::Optional(None), FieldValue::Optional(Some(30))]),
        [Attach { field: 0, value: 10 }, Attach { field: 2, value: 30 }]
    );
    assert_eq!(create(vec![FieldValue::<i64>::Optional(None)]), []);
    assert_eq!(create::<i64>(vec![]), []);
}

#[test]
fn update_writes_every_field() {
    assert_eq!(
        update(vec![FieldValue::Required(10), FieldValue::Optional(None), FieldValue::Optional(Some(30))]),
        [
            Write::Insert { field: 0, value: 10 },
            Write::Remove { field: 1 },
            Write::Insert { field: 2, value: 30 },
        ]
    );
    assert_eq!(update::<i64>(vec![]), []);
}
