//! A message instance: a message type together with the store of its fields.

use vstd::prelude::*;
use crate::descriptor::MessageDescriptorRef;
use crate::fields::{store_view, DynamicMessageFieldSet};
use crate::json::de::{deserialize_message, message_of_json, read_message, DeserializeError};
use crate::json::ser::{json_of_message, serialize_message, wrote, SerializeError};
use crate::json::value::JsonValue;
use crate::json::{DeserializeOptions, SerializeOptions};
use crate::value::MessageView;

verus! {

/// A message whose type is given by a descriptor at run time.
#[derive(Debug, PartialEq)]
pub struct DynamicMessage<'a> {
    pub desc: MessageDescriptorRef<'a>,
    pub fields: DynamicMessageFieldSet<'a>,
}

/// What a message holds: its type and its entries by field number.
pub open spec fn message_view<'a>(m: DynamicMessage<'a>) -> MessageView<'a>
    decreases m,
{
    MessageView { desc: m.desc, fields: store_view(m.fields) }
}

impl<'a> View for DynamicMessage<'a> {
    type V = MessageView<'a>;

    open spec fn view(&self) -> MessageView<'a> {
        message_view(*self)
    }
}

impl<'a> Clone for DynamicMessage<'a> {
    fn clone(&self) -> (r: Self)
        ensures
            r.desc == self.desc,
            r@ == self@,
        decreases self,
    {
        DynamicMessage { desc: self.desc, fields: self.fields.clone() }
    }
}

impl<'a> DynamicMessage<'a> {
    /// A message of type `desc` with no field set.
    pub fn new(desc: MessageDescriptorRef<'a>) -> (r: DynamicMessage<'a>)
        ensures
            r.desc == desc,
            r@ == (MessageView { desc, fields: Map::empty() }),
    {
        DynamicMessage { desc, fields: DynamicMessageFieldSet::new() }
    }

    /// Writes the message as JSON, in the canonical mapping.
    pub fn serialize(&self) -> (r: Result<JsonValue, SerializeError>)
        ensures
            forall|options: SerializeOptions|
                options.stringifies_64_bit_integers() && !options.uses_enum_numbers()
                    && !options.uses_proto_field_name() && options.skips_default_fields()
                    && options.any_nesting_limit() == crate::json::DEFAULT_ANY_NESTING ==> wrote(
                    r,
                    #[trigger] json_of_message(self@, options),
                ),
    {
        let defaults = SerializeOptions::new();
        let r = serialize_message(self, &defaults);
        proof {
            assert forall|options: SerializeOptions|
                options.stringifies_64_bit_integers() && !options.uses_enum_numbers()
                    && !options.uses_proto_field_name() && options.skips_default_fields()
                    && options.any_nesting_limit() == crate::json::DEFAULT_ANY_NESTING implies wrote(
                r,
                #[trigger] json_of_message(self@, options),
            ) by {
                SerializeOptions::lemma_same_options(options, defaults);
            }
        }
        r
    }

    /// Writes the message as JSON, in the mapping that `options` asks for.
    pub fn serialize_with_options(&self, options: &SerializeOptions) -> (r: Result<
        JsonValue,
        SerializeError,
    >)
        ensures
            wrote(r, json_of_message(self@, *options)),
    {
        serialize_message(self, options)
    }

    /// Reads a message of type `desc` from JSON, denying members that name no
    /// field.
    pub fn deserialize(desc: MessageDescriptorRef<'a>, json: &JsonValue) -> (r: Result<
        DynamicMessage<'a>,
        DeserializeError,
    >)
        ensures
            forall|options: DeserializeOptions|
                options.denies_unknown_fields() ==> read_message(
                    r,
                    desc,
                    #[trigger] message_of_json(json@, desc, options),
                ),
    {
        let defaults = DeserializeOptions::new();
        let r = deserialize_message(desc, json, &defaults);
        proof {
            assert forall|options: DeserializeOptions| options.denies_unknown_fields() implies read_message(
                r,
                desc,
                #[trigger] message_of_json(json@, desc, options),
            ) by {
                DeserializeOptions::lemma_same_options(options, defaults);
            }
        }
        r
    }

    /// Reads a message of type `desc` from JSON, as `options` asks.
    pub fn deserialize_with_options(
        desc: MessageDescriptorRef<'a>,
        json: &JsonValue,
        options: &DeserializeOptions,
    ) -> (r: Result<DynamicMessage<'a>, DeserializeError>)
        ensures
            read_message(r, desc, message_of_json(json@, desc, *options)),
    {
        deserialize_message(desc, json, options)
    }

    /// The type of the message.
    pub fn descriptor(&self) -> (r: MessageDescriptorRef<'a>)
        ensures
            r == self.desc,
    {
        self.desc
    }
}

} // verus!
