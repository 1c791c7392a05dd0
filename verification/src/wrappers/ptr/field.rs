//! Access to the fields of a foreign value.
//!
//! The runtime describes the fields of a value; the library decides from that description
//! whether a field may be read or written, and names the field by its index. The embedding
//! program fetches or stores the field, and the library turns what was fetched into a handle.

use crate::data::layout::valid_layout::{TypeKind, ValidLayout};
use crate::error::{JlrsError, JlrsResult};
use crate::memory::scope::ScopeStack;
use crate::memory::target::Target;
use crate::wrappers::ptr::value::Value;
use vstd::prelude::*;

verus! {

/// One field of a foreign value, as the runtime describes it.
#[derive(Clone, Copy, Debug, PartialEq, Eq, Structural)]
pub struct Field {
    /// The address of the symbol that names the field.
    pub name: usize,
    /// Whether the field holds a pointer to its value, rather than the value itself.
    pub is_pointer: bool,
}

/// The fields of a foreign value, in order, and whether the value can be changed.
#[derive(Debug)]
pub struct Fields {
    /// Whether fields of the value can be set.
    pub mutable: bool,
    /// The fields, in the order of their indices.
    pub fields: Vec<Field>,
}

/// The index of the field with this name: the first one, should several have it.
pub open spec fn index_of(fields: Seq<Field>, name: usize) -> Option<int> {
    if exists|i: int| 0 <= i < fields.len() && fields[i].name == name {
        Some(
            choose|i: int|
                0 <= i < fields.len() && fields[i].name == name && forall|j: int|
                    0 <= j < i ==> fields[j].name != name,
        )
    } else {
        None
    }
}

/// The first field with a given name is the one that no field with that name precedes.
pub proof fn lemma_index_of(fields: Seq<Field>, name: usize, i: int)
    requires
        0 <= i < fields.len(),
        fields[i].name == name,
        forall|j: int| 0 <= j < i ==> fields[j].name != name,
    ensures
        index_of(fields, name) == Some(i),
{
    let k = choose|k: int|
        0 <= k < fields.len() && fields[k].name == name && forall|j: int|
            0 <= j < k ==> fields[j].name != name;
    if k < i {
        assert(fields[k].name != name);
    } else if i < k {
        assert(fields[i].name != name);
    }
}

impl Fields {
    /// The index of the field with this name.
    pub fn index(&self, name: usize) -> (found: Option<usize>)
        ensures
            found matches Some(i) ==> index_of(self.fields@, name) == Some(i as int),
            found is None ==> index_of(self.fields@, name) is None,
    {
        let mut i: usize = 0;
        while i < self.fields.len()
            invariant
                i <= self.fields@.len(),
                forall|j: int| 0 <= j < i ==> self.fields@[j].name != name,
            decreases self.fields@.len() - i,
        {
            if self.fields[i].name == name {
                proof {
                    lemma_index_of(self.fields@, name, i as int);
                }
                return Some(i);
            }
            i = i + 1;
        }
        None
    }
}

/// A field that may be read, named by its index.
#[derive(Clone, Copy, Debug)]
pub struct FieldAccess {
    owner: Value,
    index: usize,
}

/// A field that may be written if the value to store has a fitting type.
#[derive(Clone, Copy, Debug)]
pub struct FieldStore {
    owner: Value,
    index: usize,
    value: Value,
}

/// The type of a field, as far as the layout of its content depends on it.
#[derive(Clone, Copy, Debug, PartialEq, Eq, Structural)]
pub enum FieldType {
    /// The declared type is a bits union. `active` is the variant that the flag of the field
    /// names, if it names one.
    BitsUnion { active: Option<TypeKind> },
    /// The declared type has free type parameters. `stored` is the type of the value that the
    /// field holds.
    UnionAll { stored: TypeKind },
    /// Any other declared type.
    Plain(TypeKind),
}

impl FieldType {
    /// The type that the content of the field has: the active variant of a bits union, the
    /// type of the value stored where the declared type has free parameters, and else the
    /// declared type.
    pub open spec fn content_spec(self) -> TypeKind {
        match self {
            FieldType::BitsUnion { active: Some(variant) } => variant,
            FieldType::BitsUnion { active: None } => TypeKind::Union { bits_union: true },
            FieldType::UnionAll { stored } => stored,
            FieldType::Plain(declared) => declared,
        }
    }

    /// The type that the content of the field has.
    #[verifier::when_used_as_spec(content_spec)]
    pub fn content(self) -> (content: TypeKind)
        ensures
            content == self.content_spec(),
    {
        match self {
            FieldType::BitsUnion { active: Some(variant) } => variant,
            FieldType::BitsUnion { active: None } => TypeKind::Union { bits_union: true },
            FieldType::UnionAll { stored } => stored,
            FieldType::Plain(declared) => declared,
        }
    }
}

impl FieldAccess {
    /// The value whose field is read.
    pub closed spec fn owner_spec(&self) -> Value {
        self.owner
    }

    /// The index of the field.
    pub closed spec fn index_spec(&self) -> usize {
        self.index
    }

    /// The value whose field is read.
    #[verifier::when_used_as_spec(owner_spec)]
    pub fn owner(&self) -> (owner: Value)
        ensures
            owner == self.owner_spec(),
    {
        self.owner
    }

    /// The index of the field.
    #[verifier::when_used_as_spec(index_spec)]
    pub fn index(&self) -> (index: usize)
        ensures
            index == self.index_spec(),
    {
        self.index
    }

    /// Turns the address fetched from the field into a handle placed through `target`.
    ///
    /// Fails with `UndefRef` when the address is null: the field holds no value yet. The
    /// handle may alias whatever the owner of the field may alias.
    pub fn complete(self, stack: &mut ScopeStack, target: Target, fetched: usize) -> (value:
        JlrsResult<Value>)
        requires
            old(stack).wf(),
        ensures
            final(stack).wf(),
            fetched == 0 ==> {
                &&& value == Err::<Value, JlrsError>(JlrsError::UndefRef)
                &&& *final(stack) == *old(stack)
            },
            fetched != 0 ==> target.places(
                *old(stack),
                *final(stack),
                fetched,
                self.owner().data(),
                value,
            ),
    {
        if fetched == 0 {
            return Err(JlrsError::UndefRef);
        }
        target.place(stack, fetched, self.owner.data())
    }

    /// Turns the address fetched from the field into an unrooted handle, or `None` when the
    /// field holds no value yet. The handle has the tags of the owner of the field, whose
    /// scope must be open: otherwise the result is `ScopeClosed`.
    pub fn complete_ref(self, stack: &ScopeStack, fetched: usize) -> (value: JlrsResult<
        Option<Value>,
    >)
        requires
            stack.wf(),
        ensures
            fetched == 0 ==> value == Ok::<Option<Value>, JlrsError>(None),
            fetched != 0 && stack.is_valid_spec(self.owner().scope()) ==> {
                &&& value matches Ok(Some(handle))
                &&& handle.denotes(fetched, self.owner().scope(), self.owner().data())
            },
            fetched != 0 && !stack.is_valid_spec(self.owner().scope()) ==> value == Err::<
                Option<Value>,
                JlrsError,
            >(JlrsError::ScopeClosed),
    {
        if fetched == 0 {
            return Ok(None);
        }
        match stack.unrooted(self.owner.scope(), fetched, self.owner.data()) {
            Ok(handle) => Ok(Some(handle)),
            Err(error) => Err(error),
        }
    }

    /// Checks that the host type `T` has the layout of the content of the field, whose type
    /// is `field_type`, and returns the index of the field to read.
    pub fn deref_field<T: ValidLayout>(self, field_type: FieldType) -> (index: JlrsResult<usize>)
        ensures
            T::valid_layout_spec(field_type.content()) ==> index == Ok::<usize, JlrsError>(
                self.index(),
            ),
            !T::valid_layout_spec(field_type.content()) ==> index == Err::<usize, JlrsError>(
                JlrsError::InvalidLayout,
            ),
    {
        if T::valid_layout(field_type.content()) {
            Ok(self.index)
        } else {
            Err(JlrsError::InvalidLayout)
        }
    }
}

impl FieldStore {
    /// The value whose field is written.
    pub closed spec fn owner_spec(&self) -> Value {
        self.owner
    }

    /// The index of the field.
    pub closed spec fn index_spec(&self) -> usize {
        self.index
    }

    /// The value to store.
    pub closed spec fn value_spec(&self) -> Value {
        self.value
    }

    /// The value whose field is written.
    #[verifier::when_used_as_spec(owner_spec)]
    pub fn owner(&self) -> (owner: Value)
        ensures
            owner == self.owner_spec(),
    {
        self.owner
    }

    /// The index of the field.
    #[verifier::when_used_as_spec(index_spec)]
    pub fn index(&self) -> (index: usize)
        ensures
            index == self.index_spec(),
    {
        self.index
    }

    /// The value to store.
    #[verifier::when_used_as_spec(value_spec)]
    pub fn value(&self) -> (value: Value)
        ensures
            value == self.value_spec(),
    {
        self.value
    }

    /// Decides whether the store goes ahead: `is_subtype` says whether the runtime found the
    /// type of the value to be a subtype of the type of the field.
    pub fn complete(self, is_subtype: bool) -> (store: JlrsResult<FieldStore>)
        ensures
            is_subtype ==> store == Ok::<FieldStore, JlrsError>(self),
            !is_subtype ==> store == Err::<FieldStore, JlrsError>(JlrsError::NotSubtype),
    {
        if is_subtype {
            Ok(self)
        } else {
            Err(JlrsError::NotSubtype)
        }
    }
}

impl Value {
    /// Whether reading the field at index `idx` of `self` gives `access`.
    pub open spec fn reads_nth(
        self,
        fields: Fields,
        idx: usize,
        access: JlrsResult<FieldAccess>,
    ) -> bool {
        if idx < fields.fields@.len() {
            &&& access is Ok
            &&& access->Ok_0.owner() == self
            &&& access->Ok_0.index() == idx
        } else {
            access == Err::<FieldAccess, JlrsError>(
                JlrsError::OutOfBounds(idx, fields.fields@.len() as usize),
            )
        }
    }

    /// Whether reading a reference to the field at index `idx` of `self` gives `access`.
    pub open spec fn refers_nth(
        self,
        fields: Fields,
        idx: usize,
        access: JlrsResult<FieldAccess>,
    ) -> bool {
        if idx >= fields.fields@.len() {
            access == Err::<FieldAccess, JlrsError>(
                JlrsError::OutOfBounds(idx, fields.fields@.len() as usize),
            )
        } else if !fields.fields@[idx as int].is_pointer {
            access == Err::<FieldAccess, JlrsError>(JlrsError::NotAPointerField(idx))
        } else {
            &&& access is Ok
            &&& access->Ok_0.owner() == self
            &&& access->Ok_0.index() == idx
        }
    }

    /// Whether reading the field named `name` of `self` gives `access`.
    pub open spec fn reads_named(
        self,
        fields: Fields,
        name: usize,
        access: JlrsResult<FieldAccess>,
    ) -> bool {
        match index_of(fields.fields@, name) {
            Some(i) => {
                &&& access is Ok
                &&& access->Ok_0.owner() == self
                &&& access->Ok_0.index() == i
            },
            None => access == Err::<FieldAccess, JlrsError>(JlrsError::NoSuchField(name)),
        }
    }

    /// Names the field at index `idx` for reading, or fails with `OutOfBounds` if the index
    /// is out of bounds. The field is fetched, boxed if it is stored inline, and rooted by
    /// [`FieldAccess::complete`].
    pub fn get_nth_field(self, fields: &Fields, idx: usize) -> (access: JlrsResult<FieldAccess>)
        ensures
            self.reads_nth(*fields, idx, access),
    {
        if idx >= fields.fields.len() {
            return Err(JlrsError::OutOfBounds(idx, fields.fields.len()));
        }
        Ok(FieldAccess { owner: self, index: idx })
    }

    /// Names the field at index `idx` if it's a pointer field.
    ///
    /// If the field doesn't exist `OutOfBounds` is returned. If the field can't be referenced
    /// because its data is stored inline, `NotAPointerField` is returned.
    pub fn get_nth_field_ref(self, fields: &Fields, idx: usize) -> (access: JlrsResult<
        FieldAccess,
    >)
        ensures
            self.refers_nth(*fields, idx, access),
    {
        if idx >= fields.fields.len() {
            return Err(JlrsError::OutOfBounds(idx, fields.fields.len()));
        }
        if !fields.fields[idx].is_pointer {
            return Err(JlrsError::NotAPointerField(idx));
        }
        Ok(FieldAccess { owner: self, index: idx })
    }

    /// Names the field at index `idx` if it exists, for a handle that is left unrooted. If the
    /// field is an inline field a new value is allocated for it.
    ///
    /// If the field doesn't exist `OutOfBounds` is returned.
    pub fn get_nth_field_unrooted(self, fields: &Fields, idx: usize) -> (access: JlrsResult<
        FieldAccess,
    >)
        ensures
            self.reads_nth(*fields, idx, access),
    {
        self.get_nth_field(fields, idx)
    }

    /// Names the field with the name `field_name` for reading, or fails with `NoSuchField` if
    /// there's no field with that name.
    pub fn get_field(self, fields: &Fields, field_name: usize) -> (access: JlrsResult<
        FieldAccess,
    >)
        ensures
            self.reads_named(*fields, field_name, access),
    {
        match fields.index(field_name) {
            Some(index) => Ok(FieldAccess { owner: self, index }),
            None => Err(JlrsError::NoSuchField(field_name)),
        }
    }

    /// Names the field with the name `field_name` if it's a pointer field.
    ///
    /// If the field doesn't exist `NoSuchField` is returned. If it isn't a pointer field,
    /// `NotAPointerField` is returned.
    pub fn get_field_ref(self, fields: &Fields, field_name: usize) -> (access: JlrsResult<
        FieldAccess,
    >)
        ensures
            match index_of(fields.fields@, field_name) {
                Some(i) => self.refers_nth(*fields, i as usize, access),
                None => access == Err::<FieldAccess, JlrsError>(
                    JlrsError::NoSuchField(field_name),
                ),
            },
    {
        match fields.index(field_name) {
            Some(index) => self.get_nth_field_ref(fields, index),
            None => Err(JlrsError::NoSuchField(field_name)),
        }
    }

    /// Names the field with the name `field_name` if it exists, for a handle that is left
    /// unrooted. If the field is an inline field a new value is allocated for it.
    ///
    /// If the field doesn't exist `NoSuchField` is returned.
    pub fn get_field_unrooted(self, fields: &Fields, field_name: usize) -> (access: JlrsResult<
        FieldAccess,
    >)
        ensures
            self.reads_named(*fields, field_name, access),
    {
        self.get_field(fields, field_name)
    }

    /// Names the field at index `idx` whose content is to be read as a host type. Returns
    /// `OutOfBounds` if the index is out of bounds. Whether the layout of the host type fits
    /// is decided by [`FieldAccess::deref_field`].
    pub fn unbox_nth_field(self, fields: &Fields, idx: usize) -> (access: JlrsResult<
        FieldAccess,
    >)
        ensures
            self.reads_nth(*fields, idx, access),
    {
        self.get_nth_field(fields, idx)
    }

    /// Names the field with the name `field_name` whose content is to be read as a host type.
    /// Returns `NoSuchField` if the field doesn't exist. Whether the layout of the host type
    /// fits is decided by [`FieldAccess::deref_field`].
    pub fn unbox_field(self, fields: &Fields, field_name: usize) -> (access: JlrsResult<
        FieldAccess,
    >)
        ensures
            self.reads_named(*fields, field_name, access),
    {
        self.get_field(fields, field_name)
    }

    /// Names the field with the name `field_name` whose content is to be read as a host type
    /// without checking if the layouts are compatible. Returns `NoSuchField` if the field
    /// doesn't exist.
    pub fn unbox_field_unchecked(self, fields: &Fields, field_name: usize) -> (index: JlrsResult<
        usize,
    >)
        ensures
            match index_of(fields.fields@, field_name) {
                Some(i) => index == Ok::<usize, JlrsError>(i as usize),
                None => index == Err::<usize, JlrsError>(JlrsError::NoSuchField(field_name)),
            },
    {
        match fields.index(field_name) {
            Some(index) => Ok(index),
            None => Err(JlrsError::NoSuchField(field_name)),
        }
    }

    /// Names the field at `idx` for storing `value`. Returns an error if this value is
    /// immutable or `idx` is out of bounds. [`FieldStore::complete`] checks that the type of
    /// `value` is a subtype of the field type.
    pub fn set_nth_field(self, fields: &Fields, idx: usize, value: Value) -> (store: JlrsResult<
        FieldStore,
    >)
        ensures
            !fields.mutable ==> store == Err::<FieldStore, JlrsError>(JlrsError::Immutable),
            fields.mutable && idx >= fields.fields@.len() ==> store == Err::<
                FieldStore,
                JlrsError,
            >(JlrsError::OutOfBounds(idx, fields.fields@.len() as usize)),
            fields.mutable && idx < fields.fields@.len() ==> {
                &&& store is Ok
                &&& store->Ok_0.owner() == self
                &&& store->Ok_0.index() == idx
                &&& store->Ok_0.value() == value
            },
    {
        if !fields.mutable {
            return Err(JlrsError::Immutable);
        }
        if idx >= fields.fields.len() {
            return Err(JlrsError::OutOfBounds(idx, fields.fields.len()));
        }
        Ok(FieldStore { owner: self, index: idx, value })
    }

    /// Names the field `field_name` for storing `value`. Returns an error if this value is
    /// immutable or the field doesn't exist. [`FieldStore::complete`] checks that the type of
    /// `value` is a subtype of the field type.
    pub fn set_field(self, fields: &Fields, field_name: usize, value: Value) -> (store:
        JlrsResult<FieldStore>)
        ensures
            !fields.mutable ==> store == Err::<FieldStore, JlrsError>(JlrsError::Immutable),
            fields.mutable ==> match index_of(fields.fields@, field_name) {
                Some(i) => {
                    &&& store is Ok
                    &&& store->Ok_0.owner() == self
                    &&& store->Ok_0.index() == i
                    &&& store->Ok_0.value() == value
                },
                None => store == Err::<FieldStore, JlrsError>(
                    JlrsError::NoSuchField(field_name),
                ),
            },
    {
        if !fields.mutable {
            return Err(JlrsError::Immutable);
        }
        match fields.index(field_name) {
            Some(index) => Ok(FieldStore { owner: self, index, value }),
            None => Err(JlrsError::NoSuchField(field_name)),
        }
    }
}

} // verus!
