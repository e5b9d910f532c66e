//! A read-only snapshot of the entity store and of its type registry.

use vstd::prelude::*;
use vstd::string::*;
use crate::types::TypeDescriptor;
use crate::value::ValueView;

verus! {

/// An attribute as a cluster names it: its qualified name and its id.
#[derive(Clone, Debug, PartialEq, Eq)]
pub struct Attribute {
    pub name: String,
    pub id: usize,
}

/// The mathematical content of an attribute reference.
pub type AttributeKey = (Seq<char>, usize);

impl View for Attribute {
    type V = AttributeKey;

    open spec fn view(&self) -> AttributeKey {
        (self.name@, self.id)
    }
}

impl Attribute {
    /// A copy of this reference.
    pub fn duplicate(&self) -> (r: Attribute)
        ensures
            r == *self,
    {
        Attribute { name: self.name.clone(), id: self.id }
    }

    /// Whether two references name the same attribute.
    pub fn same(&self, other: &Attribute) -> (r: bool)
        ensures
            r == (self@ == other@),
    {
        self.id == other.id && self.name == other.name
    }
}

/// The contents of a sequence of attribute references.
pub open spec fn keys(attributes: Seq<Attribute>) -> Seq<AttributeKey> {
    attributes.map_values(|a: Attribute| a@)
}

/// What the store knows of an attribute id.
#[derive(Debug)]
pub struct AttributeInfo {
    /// The qualified type path.
    pub name: String,
    /// The id of the attribute's type, where it has one.
    pub type_id: Option<u64>,
}

/// One entry of the type registry.
#[derive(Debug)]
pub struct TypeRegistration {
    pub type_id: u64,
    pub descriptor: TypeDescriptor,
    /// Whether values of the type can be reflected off an entity.
    pub reflectable: bool,
}

/// One attribute of one entity.
#[derive(Debug)]
pub struct ComponentValue {
    /// The attribute's id.
    pub id: usize,
    /// The reflected value, where reflection gave one.
    pub value: Option<ValueView>,
}

/// One entity and what it carries.
#[derive(Debug)]
pub struct EntityRecord {
    /// The identifier that the store gave the entity.
    pub id: u64,
    pub components: Vec<ComponentValue>,
}

/// The store at one moment. An attribute id is a position in `attributes`;
/// an entity is named by its position in `entities`.
#[derive(Debug)]
pub struct WorldSnapshot {
    pub attributes: Vec<AttributeInfo>,
    pub registry: Vec<TypeRegistration>,
    pub entities: Vec<EntityRecord>,
}

/// The position of the first registration of `type_id`.
pub open spec fn is_registered_at(registry: Seq<TypeRegistration>, type_id: u64, i: int) -> bool {
    &&& 0 <= i < registry.len()
    &&& registry[i].type_id == type_id
    &&& forall|j: int| 0 <= j < i ==> (#[trigger] registry[j]).type_id != type_id
}

/// The first registration of `type_id`, if the registry holds one.
pub open spec fn registration_of(registry: Seq<TypeRegistration>, type_id: u64) -> Option<
    TypeRegistration,
> {
    if exists|i: int| is_registered_at(registry, type_id, i) {
        Some(registry[choose|i: int| is_registered_at(registry, type_id, i)])
    } else {
        None
    }
}

/// The position of the first component with id `id`.
pub open spec fn is_component_at(components: Seq<ComponentValue>, id: usize, i: int) -> bool {
    &&& 0 <= i < components.len()
    &&& components[i].id == id
    &&& forall|j: int| 0 <= j < i ==> (#[trigger] components[j]).id != id
}

/// The first component with id `id`, if the entity carries one.
pub open spec fn component_of(components: Seq<ComponentValue>, id: usize) -> Option<
    ComponentValue,
> {
    if exists|i: int| is_component_at(components, id, i) {
        Some(components[choose|i: int| is_component_at(components, id, i)])
    } else {
        None
    }
}

/// Whether an entity carries the attribute `id`.
pub open spec fn carries(entity: EntityRecord, id: usize) -> bool {
    component_of(entity.components@, id) is Some
}

impl WorldSnapshot {
    /// What the store knows of attribute `id`, if it knows it at all.
    pub open spec fn spec_info(self, id: usize) -> Option<AttributeInfo> {
        if id < self.attributes@.len() {
            Some(self.attributes@[id as int])
        } else {
            None
        }
    }

    /// What the store knows of attribute `id`, if it knows it at all.
    pub fn info(&self, id: usize) -> (r: Option<&AttributeInfo>)
        ensures
            r == match self.spec_info(id) {
                Some(i) => Some(&i),
                None => None,
            },
    {
        if id < self.attributes.len() {
            Some(&self.attributes[id])
        } else {
            None
        }
    }

    /// The registration of `type_id`, if the registry holds one.
    pub open spec fn spec_registration(self, type_id: u64) -> Option<TypeRegistration> {
        registration_of(self.registry@, type_id)
    }

    /// The registration of `type_id`, if the registry holds one.
    pub fn registration(&self, type_id: u64) -> (r: Option<&TypeRegistration>)
        ensures
            r == match self.spec_registration(type_id) {
                Some(t) => Some(&t),
                None => None,
            },
    {
        let mut i: usize = 0;
        while i < self.registry.len()
            invariant
                i <= self.registry.len(),
                forall|j: int| 0 <= j < i ==> (#[trigger] self.registry@[j]).type_id != type_id,
            decreases self.registry.len() - i,
        {
            if self.registry[i].type_id == type_id {
                proof {
                    assert(is_registered_at(self.registry@, type_id, i as int));
                    let c = choose|c: int| is_registered_at(self.registry@, type_id, c);
                    assert(is_registered_at(self.registry@, type_id, c));
                    if c < i {
                        assert(self.registry@[c].type_id != type_id);
                    } else if i < c {
                        assert(self.registry@[i as int].type_id != type_id);
                    }
                }
                return Some(&self.registry[i]);
            }
            i = i + 1;
        }
        proof {
            if exists|c: int| is_registered_at(self.registry@, type_id, c) {
                let c = choose|c: int| is_registered_at(self.registry@, type_id, c);
                assert(self.registry@[c].type_id != type_id);
            }
        }
        None
    }

    /// Whether `type_id` is one of the types that clustering looks at: the
    /// registered ones.
    pub open spec fn spec_is_known(self, type_id: Option<u64>) -> bool {
        match type_id {
            Some(t) => self.spec_registration(t) is Some,
            None => false,
        }
    }

    /// Whether `type_id` is one of the types that clustering looks at.
    pub fn is_known(&self, type_id: Option<u64>) -> (r: bool)
        ensures
            r == self.spec_is_known(type_id),
    {
        match type_id {
            Some(t) => self.registration(t).is_some(),
            None => false,
        }
    }
}

impl EntityRecord {
    /// The first component with id `id`, if the entity carries one.
    pub fn component(&self, id: usize) -> (r: Option<&ComponentValue>)
        ensures
            r == match component_of(self.components@, id) {
                Some(c) => Some(&c),
                None => None,
            },
    {
        let mut i: usize = 0;
        while i < self.components.len()
            invariant
                i <= self.components.len(),
                forall|j: int| 0 <= j < i ==> (#[trigger] self.components@[j]).id != id,
            decreases self.components.len() - i,
        {
            if self.components[i].id == id {
                proof {
                    assert(is_component_at(self.components@, id, i as int));
                    let c = choose|c: int| is_component_at(self.components@, id, c);
                    assert(is_component_at(self.components@, id, c));
                    if c < i {
                        assert(self.components@[c].id != id);
                    } else if i < c {
                        assert(self.components@[i as int].id != id);
                    }
                }
                return Some(&self.components[i]);
            }
            i = i + 1;
        }
        proof {
            if exists|c: int| is_component_at(self.components@, id, c) {
                let c = choose|c: int| is_component_at(self.components@, id, c);
                assert(self.components@[c].id != id);
            }
        }
        None
    }

    /// Whether the entity carries the attribute `id`.
    pub fn has(&self, id: usize) -> (r: bool)
        ensures
            r == carries(*self, id),
    {
        self.component(id).is_some()
    }
}

} // verus!
