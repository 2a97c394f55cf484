use component_group::component_field::ComponentField;
use component_group::protocol::{
    create, exactly_one, first_match, missing_required, record_from, update, FieldValue,
    LookupError, Row, Write,
};
use component_group::syntax::{
    Field, GenericArgument, Path, PathArguments, PathSegment, Type, TypeForm,
};

use specs::error::Error as SpecsError;
use specs::{
    Builder, Component, Entity, HashMapStorage, Join, NullStorage, VecStorage, World, WorldExt,
};

#[derive(Debug, Clone, PartialEq, Eq)]
pub struct Position {
    x: i32,
    y: i32,
}

impl Component for Position {
    type Storage = VecStorage<Self>;
}

#[derive(Debug, Clone, Copy, PartialEq, Eq)]
pub struct Health(u32);

impl Component for Health {
    type Storage = VecStorage<Self>;
}

#[derive(Debug, Clone, Copy, PartialEq, Eq)]
pub struct Animation {
    frame: usize,
}

impl Component for Animation {
    type Storage = HashMapStorage<Self>;
}

#[derive(Debug, Clone, Copy, Default, PartialEq, Eq)]
pub struct NotInGroup;

impl Component for NotInGroup {
    type Storage = NullStorage<Self>;
}

/// A component of any of the types that the group is made of.
#[derive(Debug, Clone, PartialEq, Eq)]
enum Value {
    Position(Position),
    Health(Health),
    Animation(Animation),
}

#[derive(Debug, Clone, PartialEq, Eq)]
struct PlayerComponents {
    position: Position,
    health: Health,
    // This component is allowed to not be present
    animation: Option<Animation>,
}

fn named(name: &str, arguments: PathArguments) -> TypeForm {
    TypeForm::Path {
        qualified_self: false,
        path: Path {
            leading_colon: false,
            segments: vec![PathSegment { ident: name.to_string(), arguments }],
        },
    }
}

/// The fields of `PlayerComponents`, as the struct above declares them.
fn declared() -> Vec<Field> {
    vec![
        Field {
            ident: "position".to_string(),
            ty: Type { tokens: "Position".to_string(), form: named("Position", PathArguments::Bare) },
        },
        Field {
            ident: "health".to_string(),
            ty: Type { tokens: "Health".to_string(), form: named("Health", PathArguments::Bare) },
        },
        Field {
            ident: "animation".to_string(),
            ty: Type {
                tokens: "Option < Animation >".to_string(),
                form: named(
                    "Option",
                    PathArguments::AngleBracketed {
                        turbofish: false,
                        args: vec![GenericArgument::Type("Animation".to_string())],
                    },
                ),
            },
        },
    ]
}

fn classified(fields: &Vec<Field>) -> Vec<ComponentField<'_>> {
    fields.iter().map(ComponentField::from).collect()
}

fn fetch(world: &World, entity: Entity, field: &ComponentField) -> Option<Value> {
    match field.ty.as_str() {
        "Position" => get::<Position>(world, entity).map(Value::Position),
        "Health" => get::<Health>(world, entity).map(Value::Health),
        "Animation" => get::<Animation>(world, entity).map(Value::Animation),
        other => panic!("no storage for {}", other),
    }
}

fn take(world: &mut World, entity: Entity, field: &ComponentField) -> Option<Value> {
    match field.ty.as_str() {
        "Position" => world.write_storage::<Position>().remove(entity).map(Value::Position),
        "Health" => world.write_storage::<Health>().remove(entity).map(Value::Health),
        "Animation" => world.write_storage::<Animation>().remove(entity).map(Value::Animation),
        other => panic!("no storage for {}", other),
    }
}

fn store(world: &mut World, entity: Entity, value: Value) -> Result<(), SpecsError> {
    match value {
        Value::Position(position) => {
            world.write_storage::<Position>().insert(entity, position)?;
        },
        Value::Health(health) => {
            world.write_storage::<Health>().insert(entity, health)?;
        },
        Value::Animation(animation) => {
            world.write_storage::<Animation>().insert(entity, animation)?;
        },
    }
    Ok(())
}

impl PlayerComponents {
    fn into_record(self) -> Vec<FieldValue<Value>> {
        vec![
            FieldValue::Required(Value::Position(self.position)),
            FieldValue::Required(Value::Health(self.health)),
            FieldValue::Optional(self.animation.map(Value::Animation)),
        ]
    }

    fn from_record(record: Vec<FieldValue<Value>>) -> Self {
        let mut values = record.into_iter();
        let position = match values.next() {
            Some(FieldValue::Required(Value::Position(position))) => position,
            other => panic!("not a position: {:?}", other),
        };
        let health = match values.next() {
            Some(FieldValue::Required(Value::Health(health))) => health,
            other => panic!("not a health: {:?}", other),
        };
        let animation = match values.next() {
            Some(FieldValue::Optional(Some(Value::Animation(animation)))) => Some(animation),
            Some(FieldValue::Optional(None)) => None,
            other => panic!("not an animation: {:?}", other),
        };
        assert!(values.next().is_none());
        Self { position, health, animation }
    }

    /// One row per living entity, in the order of the join, with what each
    /// field's storage holds for it.
    fn rows(world: &World, fields: &Vec<ComponentField>) -> Vec<Row<Entity, Value>> {
        let entities = world.entities();
        let mut rows = Vec::new();
        for entity in (&entities).join() {
            let values = fields.iter().map(|field| fetch(world, entity, field)).collect();
            rows.push(Row { entity, values });
        }
        rows
    }

    fn first_from_world(world: &World) -> Option<(Entity, Self)> {
        let declared = declared();
        let fields = classified(&declared);
        first_match(&fields, Self::rows(world, &fields))
            .map(|(entity, record)| (entity, Self::from_record(record)))
    }

    fn exactly_one(world: &World) -> Result<Self, LookupError> {
        let declared = declared();
        let fields = classified(&declared);
        exactly_one(&fields, Self::rows(world, &fields)).map(Self::from_record)
    }

    fn from_world(world: &World, entity: Entity) -> Self {
        let declared = declared();
        let fields = classified(&declared);
        let values: Vec<Option<Value>> =
            fields.iter().map(|field| fetch(world, entity, field)).collect();
        if let Some(missing) = missing_required(&fields, &values) {
            panic!("{}", fields[missing].load_failure());
        }
        Self::from_record(record_from(&fields, values))
    }

    fn create(self, world: &mut World) -> Entity {
        let mut builder = world.create_entity();
        for attached in create(self.into_record()) {
            builder = match attached.value {
                Value::Position(position) => builder.with(position),
                Value::Health(health) => builder.with(health),
                Value::Animation(animation) => builder.with(animation),
            };
        }
        builder.build()
    }

    fn update(self, world: &mut World, entity: Entity) -> Result<(), SpecsError> {
        let declared = declared();
        let fields = classified(&declared);
        for write in update(self.into_record()) {
            match write {
                Write::Insert { value, .. } => store(world, entity, value)?,
                Write::Remove { field } => {
                    take(world, entity, &fields[field]);
                },
            }
        }
        Ok(())
    }

    fn remove(world: &mut World, entity: Entity) -> Self {
        let declared = declared();
        let fields = classified(&declared);
        let values: Vec<Option<Value>> =
            fields.iter().map(|field| take(world, entity, field)).collect();
        if let Some(missing) = missing_required(&fields, &values) {
            panic!("{}", fields[missing].remove_failure());
        }
        Self::from_record(record_from(&fields, values))
    }
}

fn new_world() -> World {
    let mut world = World::new();
    world.register::<Position>();
    world.register::<Health>();
    world.register::<Animation>();
    world.register::<NotInGroup>();
    world
}

fn get<C: Component + Clone>(world: &World, entity: Entity) -> Option<C> {
    let storage = world.read_storage::<C>();
    storage.get(entity).cloned()
}

fn insert<C: Component + Clone>(world: &mut World, entity: Entity, value: C) {
    let mut storage = world.write_storage::<C>();
    storage.insert(entity, value).unwrap();
}

fn remove<C: Component + Clone>(world: &mut World, entity: Entity) {
    let mut storage = world.write_storage::<C>();
    storage.remove(entity).unwrap();
}

fn player(x: i32, y: i32, health: u32, frame: Option<usize>) -> PlayerComponents {
    PlayerComponents {
        position: Position { x, y },
        health: Health(health),
        animation: frame.map(|frame| Animation { frame }),
    }
}

#[test]
fn created_entity_loads_the_record() {
    let mut world = new_world();
    for record in [player(12, 59, 5, None), player(-3, 0, 0, Some(7))] {
        let entity = record.clone().create(&mut world);
        assert_eq!(PlayerComponents::from_world(&world, entity), record);
    }
}

#[test]
fn create_attaches_nothing_for_none() {
    let mut world = new_world();
    let entity = player(12, 59, 5, None).create(&mut world);
    assert_eq!(get(&world, entity), Some(Position { x: 12, y: 59 }));
    assert_eq!(get(&world, entity), Some(Health(5)));
    assert_eq!(get(&world, entity), None::<Animation>);
    assert_eq!(get(&world, entity), None::<NotInGroup>);
}

#[test]
fn update_twice_with_none_changes_nothing() {
    let mut world = new_world();
    let entity = player(12, 59, 5, Some(2)).create(&mut world);
    insert(&mut world, entity, NotInGroup);

    let record = player(1, 2, 3, None);
    assert!(record.clone().update(&mut world, entity).is_ok());
    assert_eq!(get(&world, entity), None::<Animation>);
    assert_eq!(PlayerComponents::from_world(&world, entity), record);

    assert!(record.clone().update(&mut world, entity).is_ok());
    assert_eq!(get(&world, entity), None::<Animation>);
    assert_eq!(PlayerComponents::from_world(&world, entity), record);
    assert_eq!(get(&world, entity), Some(NotInGroup));
}

#[test]
fn update_of_a_deleted_entity_is_refused() {
    let mut world = new_world();
    let entity = player(12, 59, 5, Some(2)).create(&mut world);
    let other = player(1, 1, 1, Some(1)).create(&mut world);
    world.delete_entity(entity).unwrap();

    assert!(player(0, 0, 0, None).update(&mut world, entity).is_err());
    // the other entity is as it was
    assert_eq!(PlayerComponents::from_world(&world, other), player(1, 1, 1, Some(1)));
}

#[test]
fn remove_leaves_other_components_and_entities() {
    let mut world = new_world();
    let entity = player(12, 59, 5, Some(2)).create(&mut world);
    let other = player(1, 1, 1, Some(1)).create(&mut world);
    insert(&mut world, entity, NotInGroup);

    assert_eq!(PlayerComponents::remove(&mut world, entity), player(12, 59, 5, Some(2)));

    assert_eq!(get(&world, entity), None::<Position>);
    assert_eq!(get(&world, entity), None::<Health>);
    assert_eq!(get(&world, entity), None::<Animation>);
    assert_eq!(get(&world, entity), Some(NotInGroup));
    assert_eq!(PlayerComponents::from_world(&world, other), player(1, 1, 1, Some(1)));
}

#[test]
fn load_failure_names_the_first_missing_component() {
    let mut world = new_world();
    let entity = player(12, 59, 5, None).create(&mut world);
    remove::<Health>(&mut world, entity);

    let declared = declared();
    let fields = classified(&declared);
    let values: Vec<Option<Value>> = fields.iter().map(|field| fetch(&world, entity, field)).collect();
    let missing = missing_required(&fields, &values).expect("a component is missing");
    assert_eq!(fields[missing].load_failure(), "bug: expected a Health component to be present");

    remove::<Position>(&mut world, entity);
    let values: Vec<Option<Value>> = fields.iter().map(|field| fetch(&world, entity, field)).collect();
    let missing = missing_required(&fields, &values).expect("a component is missing");
    assert_eq!(fields[missing].load_failure(), "bug: expected a Position component to be present");
}

#[test]
fn first_match_needs_only_required_components() {
    let mut world = new_world();
    assert_eq!(PlayerComponents::first_from_world(&world), None);

    // an entity without a required component is passed over
    let incomplete = player(0, 0, 0, Some(9)).create(&mut world);
    remove::<Health>(&mut world, incomplete);
    assert_eq!(PlayerComponents::first_from_world(&world), None);

    // an entity without the optional component is found, with `None` there
    let complete = player(12, 59, 5, None).create(&mut world);
    assert_eq!(
        PlayerComponents::first_from_world(&world),
        Some((complete, player(12, 59, 5, None)))
    );
}

#[test]
fn exactly_one_counts_the_groups() {
    let mut world = new_world();
    assert_eq!(PlayerComponents::exactly_one(&world), Err(LookupError::NoMatch));

    let first = player(12, 59, 5, None).create(&mut world);
    assert_eq!(PlayerComponents::exactly_one(&world), Ok(player(12, 59, 5, None)));

    let second = player(1, 1, 1, Some(1)).create(&mut world);
    assert_eq!(PlayerComponents::exactly_one(&world), Err(LookupError::Ambiguous));

    // without a required component the first entity no longer counts
    remove::<Position>(&mut world, first);
    assert_eq!(PlayerComponents::exactly_one(&world), Ok(player(1, 1, 1, Some(1))));

    // without the optional component the second entity still counts
    remove::<Animation>(&mut world, second);
    assert_eq!(PlayerComponents::exactly_one(&world), Ok(player(1, 1, 1, None)));

    remove::<Health>(&mut world, second);
    assert_eq!(PlayerComponents::exactly_one(&world), Err(LookupError::NoMatch));
}

#[test]
fn worlds_do_not_share_components() {
    let mut origin = new_world();
    let mut target = new_world();
    let source = player(12, 59, 5, Some(2)).create(&mut origin);

    let record = PlayerComponents::from_world(&origin, source);
    let copy = record.create(&mut target);
    assert_eq!(PlayerComponents::from_world(&target, copy), player(12, 59, 5, Some(2)));

    // a change in the target is not seen in the origin
    player(0, 0, 1, None).update(&mut target, copy).unwrap();
    assert_eq!(PlayerComponents::from_world(&target, copy), player(0, 0, 1, None));
    assert_eq!(PlayerComponents::from_world(&origin, source), player(12, 59, 5, Some(2)));

    // and a change in the origin is not seen in the target
    player(7, 7, 7, Some(7)).update(&mut origin, source).unwrap();
    assert_eq!(PlayerComponents::from_world(&origin, source), player(7, 7, 7, Some(7)));
    assert_eq!(PlayerComponents::from_world(&target, copy), player(0, 0, 1, None));
}

#[test]
fn optional_component_comes_and_goes() {
    let mut world = new_world();
    let entity = player(12, 59, 5, None).create(&mut world);
    assert_eq!(PlayerComponents::from_world(&world, entity).animation, None);

    insert(&mut world, entity, Animation { frame: 2 });
    assert_eq!(PlayerComponents::from_world(&world, entity).animation, Some(Animation { frame: 2 }));

    player(12, 59, 5, None).update(&mut world, entity).unwrap();
    assert_eq!(PlayerComponents::from_world(&world, entity).animation, None);
    assert_eq!(get(&world, entity), None::<Animation>);
}
