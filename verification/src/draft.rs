//! An entry while it is being typed in: what a form for adding or
//! editing an entry holds, and what becomes of it when the form is
//! confirmed or dismissed.

use vstd::prelude::*;
use crate::container::{Sfo, SfoEntry};
use crate::error::ChangeErr;
use crate::mapping::position_of;
use crate::format::Format;
use crate::keys::Keys;
use crate::mapping::DataField;

verus! {

/// A request to delete the entry with a key, waiting to be confirmed.
#[derive(Debug)]
pub struct DeleteEntryDialog {
    pub key: Keys,
}

impl DeleteEntryDialog {
    /// A request to delete the entry with `key`.
    pub fn new(key: Keys) -> (r: Self)
        ensures
            r.key == key,
    {
        DeleteEntryDialog { key }
    }
}

/// Whether a form adds an entry or edits one.
#[derive(Clone, Copy, Debug, PartialEq, Eq, Structural)]
pub enum ModalVariant {
    Add,
    Edit,
}

/// Which kind of value a form holds.
#[derive(Clone, Copy, Debug, PartialEq, Eq, Structural)]
pub enum DataFieldVariant {
    Text,
    Number,
}

impl Default for DataFieldVariant {
    fn default() -> (r: Self)
        ensures
            r == DataFieldVariant::Text,
    {
        DataFieldVariant::Text
    }
}

/// What the user did with a form.
#[derive(Clone, Copy, Debug, PartialEq, Eq, Structural)]
pub enum ModalAction {
    Confirm,
    Cancel,
    Noop,
}

/// An entry that a form has put together.
#[derive(Debug)]
pub struct DraftEntry {
    pub key: Keys,
    pub field: DataField,
}

impl Default for DraftEntry {
    fn default() -> (r: Self)
        ensures
            r.key is Unknown,
            r.key.text() == Seq::<char>::empty(),
            r.field is Utf8String,
            r.field->Utf8String_0@ == Seq::<char>::empty(),
    {
        Self { key: Keys::Unknown(String::new()), field: DataField::Utf8String(String::new()) }
    }
}

/// What is to be done with a form.
#[derive(Debug)]
pub enum EntryUpdateModalAction {
    /// Put it away.
    Close,
    /// Keep it open.
    Noop,
    /// Put it away and store the entry.
    Save(DraftEntry),
}

/// A form for adding or editing an entry: the key as typed, a text and a
/// number, and which of the two is the value.
#[derive(Debug)]
pub struct EntryUpdateModal {
    pub key: String,
    pub data_field_string_value: String,
    pub data_field_num_value: u32,
    pub data_field_variant: DataFieldVariant,
    pub variant: ModalVariant,
}

impl EntryUpdateModal {
    /// Which kind of value a slot of `format` holds.
    pub open spec fn variant_of(format: Format) -> DataFieldVariant {
        match format {
            Format::Utf8 | Format::Utf8Special => DataFieldVariant::Text,
            Format::U32 => DataFieldVariant::Number,
        }
    }

    /// Whether the form can be confirmed: the key is not empty, and
    /// where the value is a text, the text is not empty either.
    pub open spec fn spec_can_save(&self) -> bool {
        &&& self.key@.len() > 0
        &&& self.data_field_variant == DataFieldVariant::Text
            ==> self.data_field_string_value@.len() > 0
    }

    /// An empty form for adding an entry.
    pub fn new_add_entry_modal() -> (r: Self)
        ensures
            r.variant == ModalVariant::Add,
            r.data_field_variant == DataFieldVariant::Text,
            r.data_field_num_value == 0,
            r.data_field_string_value@ == Seq::<char>::empty(),
            r.key@ == Seq::<char>::empty(),
    {
        EntryUpdateModal {
            variant: ModalVariant::Add,
            data_field_variant: DataFieldVariant::Text,
            data_field_num_value: 0,
            data_field_string_value: String::new(),
            key: String::new(),
        }
    }

    /// A form for editing the entry with `key`, filled in with what the
    /// entry holds. The kind of value goes by the descriptor's format.
    pub fn new_update_entry_modal(key: &Keys, entry: &SfoEntry) -> (r: Self)
        ensures
            r.variant == ModalVariant::Edit,
            r.key@ == key.text(),
            r.data_field_variant == Self::variant_of(entry.index_table_entry.data_format),
            match *entry.data {
                DataField::Utf8String(text) => r.data_field_string_value@ == text@
                    && r.data_field_num_value == 0,
                DataField::U32(val) => r.data_field_num_value == val
                    && r.data_field_string_value@ == Seq::<char>::empty(),
            },
    {
        let data_field_variant: DataFieldVariant = match entry.index_table_entry.data_format {
            Format::Utf8 | Format::Utf8Special => DataFieldVariant::Text,
            Format::U32 => DataFieldVariant::Number,
        };
        let mut modal: EntryUpdateModal = EntryUpdateModal {
            variant: ModalVariant::Edit,
            key: key.to_string(),
            data_field_variant,
            data_field_num_value: 0,
            data_field_string_value: String::new(),
        };
        match entry.data {
            DataField::Utf8String(text) => {
                modal.data_field_string_value = text.clone();
            },
            DataField::U32(val) => {
                modal.data_field_num_value = *val;
            },
        }
        modal
    }

    /// Whether the form can be confirmed.
    pub fn can_save(&self) -> (r: bool)
        ensures
            r == self.spec_can_save(),
    {
        let value_filled: bool = match self.data_field_variant {
            DataFieldVariant::Text => !self.data_field_string_value.as_str().is_empty(),
            DataFieldVariant::Number => true,
        };
        !self.key.as_str().is_empty() && value_filled
    }

    /// What is to be done with the form after the user did `action`,
    /// where `should_close` says that the form was dismissed from
    /// outside. Confirming stores the entry: the key that the typed text
    /// names, and the text or the number, by the kind of value.
    /// Cancelling or dismissing puts the form away.
    pub fn resolve(&self, action: ModalAction, should_close: bool) -> (r: EntryUpdateModalAction)
        ensures
            match action {
                ModalAction::Confirm => {
                    &&& r is Save
                    &&& r->Save_0.key.text() == self.key@
                    &&& r->Save_0.key.is_resolved()
                    &&& match self.data_field_variant {
                        DataFieldVariant::Text => r->Save_0.field is Utf8String
                            && r->Save_0.field->Utf8String_0@ == self.data_field_string_value@,
                        DataFieldVariant::Number => r->Save_0.field == DataField::U32(
                            self.data_field_num_value,
                        ),
                    }
                },
                ModalAction::Cancel => r is Close,
                ModalAction::Noop => if should_close {
                    r is Close
                } else {
                    r is Noop
                },
            },
    {
        match action {
            ModalAction::Confirm => {
                let key: Keys = Keys::from_str(self.key.as_str());
                let field: DataField = match self.data_field_variant {
                    DataFieldVariant::Text => DataField::Utf8String(
                        self.data_field_string_value.clone(),
                    ),
                    DataFieldVariant::Number => DataField::U32(self.data_field_num_value),
                };
                EntryUpdateModalAction::Save(DraftEntry { key, field })
            },
            ModalAction::Cancel => EntryUpdateModalAction::Close,
            ModalAction::Noop => {
                if should_close {
                    EntryUpdateModalAction::Close
                } else {
                    EntryUpdateModalAction::Noop
                }
            },
        }
    }
}

/// Stores the entry of a confirmed form in the container: a form for
/// adding adds it, a form for editing edits the entry with its key.
/// Where that cannot be done the container stays as it is.
pub fn store_entry(sfo: &mut Sfo, variant: ModalVariant, entry: DraftEntry) -> (r: Result<
    (),
    ChangeErr,
>)
    requires
        old(sfo).wf(),
    ensures
        final(sfo).wf(),
        r is Err ==> *final(sfo) == *old(sfo),
        match variant {
            ModalVariant::Add => {
                &&& r is Ok <==> old(sfo)@.can_add(entry.key@, entry.field@)
                &&& r is Ok ==> final(sfo)@ == old(sfo)@.added(entry.key@, entry.field@)
                &&& r is Err ==> r == Err::<(), ChangeErr>(ChangeErr::NotStorable)
            },
            ModalVariant::Edit => {
                &&& r is Ok <==> position_of(old(sfo)@.mapping.keys, entry.key@) is Some
                    && old(sfo)@.can_edit(entry.key@, entry.field@)
                &&& r is Ok ==> final(sfo)@ == old(sfo)@.edited(entry.key@, entry.field@)
                &&& r == Err::<(), ChangeErr>(ChangeErr::NotFound) <==> position_of(
                    old(sfo)@.mapping.keys,
                    entry.key@,
                ) is None
            },
        },
{
    match variant {
        ModalVariant::Add => sfo.try_add(entry.key, entry.field),
        ModalVariant::Edit => sfo.try_edit(&entry.key, entry.field),
    }
}

} // verus!
