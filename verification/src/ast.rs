//! The schema tree: entities, their fields and their relations.
//!
//! Every type that holds text has a *model*: the same value with each `String`
//! replaced by the sequence of its characters and each `Vec` by a `Seq`. The
//! contracts of the whole crate are stated over these models.

use crate::text::{lemma_position, position, position_from};
use vstd::prelude::*;

verus! {

/// A schema: its entities, in the order in which they were declared.
#[derive(Debug, Clone, PartialEq)]
pub struct Schema {
    pub entities: Vec<Entity>,
}

/// A named record type. Fields and relations are kept in declaration order;
/// nothing here forbids two of them to share a name, the type checker reports it.
#[derive(Debug, Clone, PartialEq)]
pub struct Entity {
    pub name: String,
    pub fields: Vec<Field>,
    pub relations: Vec<Relation>,
}

/// A typed, named attribute of an entity.
#[derive(Debug, Clone, PartialEq)]
pub struct Field {
    pub name: String,
    pub field_type: FieldType,
    pub nullable: bool,
    pub unique: bool,
    pub primary_key: bool,
    pub default: Option<DefaultValue>,
    pub backend: Option<BackendAnnotation>,
}

/// The type of a field. A vector has a dimension; an array has an element
/// type, which may be an array again.
#[derive(Debug, PartialEq)]
pub enum FieldType {
    UUID,
    String,
    Int,
    Decimal,
    Bool,
    Timestamp,
    Float,
    Vector(usize),
    Array(Box<FieldType>),
}

/// The value a field takes when none is given.
#[derive(Debug, Clone, PartialEq)]
pub enum DefaultValue {
    Now,
    UUIDv4,
    Literal(String),
}

/// A reference from one entity to another, by the target's name.
#[derive(Debug, Clone, PartialEq)]
pub struct Relation {
    pub name: String,
    pub kind: RelationKind,
    pub target_entity: String,
    pub foreign_key: Option<String>,
    pub through: Option<String>,
}

/// How an entity stands to the target of a relation. `BelongsTo` is the
/// other end of a relation that the target declares.
#[derive(Debug, Clone, Copy, PartialEq, Eq, Structural)]
pub enum RelationKind {
    HasOne,
    HasMany,
    BelongsTo,
    ManyToMany,
}

/// One item of an entity's body, as the parser reads it.
#[derive(Debug)]
pub enum EntityItem {
    Field(Field),
    Relation(Relation),
}

/// One modifier behind a field's type, as the parser reads it.
#[derive(Debug)]
pub enum FieldModifier {
    Primary,
    Unique,
    Nullable,
    Default(DefaultValue),
}

/// Where a field is stored. A field without annotation lives in the primary store.
#[derive(Debug, Clone, Copy, PartialEq, Eq, Structural)]
pub enum BackendAnnotation {
    OLTP,
    Cache,
    OLAP,
    Vector,
    ML,
}

/// What a storage backend can do.
#[derive(Debug, Clone, PartialEq)]
pub struct BackendCapabilities {
    pub name: String,
    pub annotation: BackendAnnotation,
    pub supports_transactions: bool,
    pub supports_relations: bool,
    pub fallback: Option<BackendAnnotation>,
}

/// The model of a [`DefaultValue`].
pub enum DefaultModel {
    Now,
    UUIDv4,
    Literal(Seq<char>),
}

/// The model of a [`Field`].
pub struct FieldModel {
    pub name: Seq<char>,
    pub field_type: FieldType,
    pub nullable: bool,
    pub unique: bool,
    pub primary_key: bool,
    pub default: Option<DefaultModel>,
    pub backend: Option<BackendAnnotation>,
}

/// The model of a [`Relation`].
pub struct RelationModel {
    pub name: Seq<char>,
    pub kind: RelationKind,
    pub target_entity: Seq<char>,
    pub foreign_key: Option<Seq<char>>,
    pub through: Option<Seq<char>>,
}

/// The model of an [`Entity`].
pub struct EntityModel {
    pub name: Seq<char>,
    pub fields: Seq<FieldModel>,
    pub relations: Seq<RelationModel>,
}

/// The model of a [`Schema`].
pub struct SchemaModel {
    pub entities: Seq<EntityModel>,
}

/// The model of an [`EntityItem`].
pub enum EntityItemModel {
    Field(FieldModel),
    Relation(RelationModel),
}

/// The model of a [`FieldModifier`].
pub enum FieldModifierModel {
    Primary,
    Unique,
    Nullable,
    Default(DefaultModel),
}

/// The characters of an optional string.
pub open spec fn opt_text(o: Option<String>) -> Option<Seq<char>> {
    match o {
        Some(s) => Some(s@),
        None => None,
    }
}

/// The characters of each string of a list.
pub open spec fn texts(v: Seq<String>) -> Seq<Seq<char>> {
    Seq::new(v.len(), |i: int| v[i]@)
}

/// The models of a list of fields.
pub open spec fn field_models(v: Seq<Field>) -> Seq<FieldModel> {
    Seq::new(v.len(), |i: int| v[i]@)
}

/// The models of a list of relations.
pub open spec fn relation_models(v: Seq<Relation>) -> Seq<RelationModel> {
    Seq::new(v.len(), |i: int| v[i]@)
}

/// The models of a list of entities.
pub open spec fn entity_models(v: Seq<Entity>) -> Seq<EntityModel> {
    Seq::new(v.len(), |i: int| v[i]@)
}

impl View for DefaultValue {
    type V = DefaultModel;

    open spec fn view(&self) -> DefaultModel {
        match *self {
            DefaultValue::Now => DefaultModel::Now,
            DefaultValue::UUIDv4 => DefaultModel::UUIDv4,
            DefaultValue::Literal(s) => DefaultModel::Literal(s@),
        }
    }
}

impl View for Field {
    type V = FieldModel;

    open spec fn view(&self) -> FieldModel {
        FieldModel {
            name: self.name@,
            field_type: self.field_type,
            nullable: self.nullable,
            unique: self.unique,
            primary_key: self.primary_key,
            default: match self.default {
                Some(d) => Some(d@),
                None => None,
            },
            backend: self.backend,
        }
    }
}

impl View for Relation {
    type V = RelationModel;

    open spec fn view(&self) -> RelationModel {
        RelationModel {
            name: self.name@,
            kind: self.kind,
            target_entity: self.target_entity@,
            foreign_key: opt_text(self.foreign_key),
            through: opt_text(self.through),
        }
    }
}

impl View for Entity {
    type V = EntityModel;

    open spec fn view(&self) -> EntityModel {
        EntityModel {
            name: self.name@,
            fields: field_models(self.fields@),
            relations: relation_models(self.relations@),
        }
    }
}

impl View for Schema {
    type V = SchemaModel;

    open spec fn view(&self) -> SchemaModel {
        SchemaModel { entities: entity_models(self.entities@) }
    }
}

impl View for EntityItem {
    type V = EntityItemModel;

    open spec fn view(&self) -> EntityItemModel {
        match *self {
            EntityItem::Field(f) => EntityItemModel::Field(f@),
            EntityItem::Relation(r) => EntityItemModel::Relation(r@),
        }
    }
}

impl View for FieldModifier {
    type V = FieldModifierModel;

    open spec fn view(&self) -> FieldModifierModel {
        match *self {
            FieldModifier::Primary => FieldModifierModel::Primary,
            FieldModifier::Unique => FieldModifierModel::Unique,
            FieldModifier::Nullable => FieldModifierModel::Nullable,
            FieldModifier::Default(d) => FieldModifierModel::Default(d@),
        }
    }
}

impl FieldType {
    /// A copy of this type.
    pub fn duplicate(&self) -> (r: FieldType)
        ensures
            r == *self,
        decreases *self,
    {
        match self {
            FieldType::UUID => FieldType::UUID,
            FieldType::String => FieldType::String,
            FieldType::Int => FieldType::Int,
            FieldType::Decimal => FieldType::Decimal,
            FieldType::Bool => FieldType::Bool,
            FieldType::Timestamp => FieldType::Timestamp,
            FieldType::Float => FieldType::Float,
            FieldType::Vector(n) => FieldType::Vector(*n),
            FieldType::Array(inner) => FieldType::Array(Box::new(inner.duplicate())),
        }
    }
}

impl Clone for FieldType {
    fn clone(&self) -> (r: FieldType)
        ensures
            r == *self,
    {
        self.duplicate()
    }
}

impl SchemaModel {
    /// The names of the entities, in declaration order.
    pub open spec fn names(self) -> Seq<Seq<char>> {
        Seq::new(self.entities.len(), |i: int| self.entities[i].name)
    }

    /// Whether some entity of the schema is called `name`.
    pub open spec fn has_entity(self, name: Seq<char>) -> bool {
        self.names().contains(name)
    }

    /// The index of the first entity called `name`; the number of entities if there is none.
    pub open spec fn entity_index(self, name: Seq<char>) -> int {
        position(self.names(), name)
    }
}

impl EntityModel {
    /// The names of the fields, in declaration order.
    pub open spec fn field_names(self) -> Seq<Seq<char>> {
        Seq::new(self.fields.len(), |i: int| self.fields[i].name)
    }

    /// The names of the relations, in declaration order.
    pub open spec fn relation_names(self) -> Seq<Seq<char>> {
        Seq::new(self.relations.len(), |i: int| self.relations[i].name)
    }

    /// Whether some field of the entity is called `name`.
    pub open spec fn has_field(self, name: Seq<char>) -> bool {
        self.field_names().contains(name)
    }
}

impl Schema {
    /// A schema without entities.
    pub fn new() -> (r: Schema)
        ensures
            r@.entities == Seq::<EntityModel>::empty(),
    {
        let r = Schema { entities: Vec::new() };
        assert(r@.entities =~= Seq::<EntityModel>::empty());
        r
    }

    /// The first entity called `name`, if there is one.
    pub fn get_entity(&self, name: &str) -> (r: Option<&Entity>)
        ensures
            r is Some <==> self@.has_entity(name@),
            r matches Some(e) ==> {
                &&& 0 <= self@.entity_index(name@) < self.entities.len()
                &&& *e == self.entities[self@.entity_index(name@)]
            },
    {
        proof {
            lemma_position(self@.names(), name@);
        }
        let mut i: usize = 0;
        while i < self.entities.len()
            invariant
                i <= self.entities.len(),
                self@.entity_index(name@) == position_from(self@.names(), name@, i as int),
            decreases self.entities.len() - i,
        {
            if *self.entities[i].name.as_str() == *name {
                return Some(&self.entities[i]);
            }
            i += 1;
        }
        None
    }

    /// The first entity called `name`, if there is one, for the caller to change.
    pub fn get_entity_mut(&mut self, name: &str) -> (r: Option<&mut Entity>)
        ensures
            r is Some <==> old(self)@.has_entity(name@),
            r is None ==> *final(self) == *old(self),
            r matches Some(e) ==> {
                &&& 0 <= old(self)@.entity_index(name@) < old(self).entities.len()
                &&& *e == old(self).entities[old(self)@.entity_index(name@)]
                &&& final(self).entities@ == old(self).entities@.update(
                    old(self)@.entity_index(name@),
                    *final(e),
                )
            },
    {
        proof {
            lemma_position(self@.names(), name@);
        }
        let mut i: usize = 0;
        while i < self.entities.len()
            invariant
                *self == *old(self),
                i <= self.entities.len(),
                self@.entity_index(name@) == position_from(self@.names(), name@, i as int),
            decreases self.entities.len() - i,
        {
            if *self.entities[i].name.as_str() == *name {
                return Some(&mut self.entities[i]);
            }
            i += 1;
        }
        None
    }

    /// Appends `entity` behind the entities already declared.
    pub fn add_entity(&mut self, entity: Entity)
        ensures
            final(self)@.entities == old(self)@.entities.push(entity@),
            final(self).entities@ == old(self).entities@.push(entity),
    {
        self.entities.push(entity);
        assert(self@.entities =~= old(self)@.entities.push(entity@));
    }
}

impl Entity {
    /// An entity called `name` without fields or relations.
    pub fn new(name: String) -> (r: Entity)
        ensures
            r@.name == name@,
            r@.fields == Seq::<FieldModel>::empty(),
            r@.relations == Seq::<RelationModel>::empty(),
    {
        let r = Entity { name, fields: Vec::new(), relations: Vec::new() };
        assert(r@.fields =~= Seq::<FieldModel>::empty());
        assert(r@.relations =~= Seq::<RelationModel>::empty());
        r
    }

    /// Appends `field` behind the fields already declared, whatever their names.
    pub fn add_field(&mut self, field: Field)
        ensures
            final(self)@ == (EntityModel {
                fields: old(self)@.fields.push(field@),
                ..old(self)@
            }),
    {
        self.fields.push(field);
        assert(self@.fields =~= old(self)@.fields.push(field@));
    }

    /// Appends `relation` behind the relations already declared, whatever their names.
    pub fn add_relation(&mut self, relation: Relation)
        ensures
            final(self)@ == (EntityModel {
                relations: old(self)@.relations.push(relation@),
                ..old(self)@
            }),
    {
        self.relations.push(relation);
        assert(self@.relations =~= old(self)@.relations.push(relation@));
    }
}

impl Entity {
    /// The first field called `name`, if there is one.
    pub fn get_field(&self, name: &str) -> (r: Option<&Field>)
        ensures
            r is Some <==> self@.has_field(name@),
            r matches Some(f) ==> {
                &&& 0 <= position(self@.field_names(), name@) < self.fields.len()
                &&& *f == self.fields[position(self@.field_names(), name@)]
            },
    {
        proof {
            lemma_position(self@.field_names(), name@);
        }
        let mut i: usize = 0;
        while i < self.fields.len()
            invariant
                i <= self.fields.len(),
                position(self@.field_names(), name@) == position_from(
                    self@.field_names(),
                    name@,
                    i as int,
                ),
            decreases self.fields.len() - i,
        {
            if *self.fields[i].name.as_str() == *name {
                return Some(&self.fields[i]);
            }
            i += 1;
        }
        None
    }

    /// The first relation called `name`, if there is one.
    pub fn get_relation(&self, name: &str) -> (r: Option<&Relation>)
        ensures
            r is Some <==> self@.relation_names().contains(name@),
            r matches Some(f) ==> {
                &&& 0 <= position(self@.relation_names(), name@) < self.relations.len()
                &&& *f == self.relations[position(self@.relation_names(), name@)]
            },
    {
        proof {
            lemma_position(self@.relation_names(), name@);
        }
        let mut i: usize = 0;
        while i < self.relations.len()
            invariant
                i <= self.relations.len(),
                position(self@.relation_names(), name@) == position_from(
                    self@.relation_names(),
                    name@,
                    i as int,
                ),
            decreases self.relations.len() - i,
        {
            if *self.relations[i].name.as_str() == *name {
                return Some(&self.relations[i]);
            }
            i += 1;
        }
        None
    }
}

} // verus!
