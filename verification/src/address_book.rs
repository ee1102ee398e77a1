//! A small schema written against the engine: an address book of people
//! and their phone numbers.
//!
//! The three message types show the protocol at work on scalar fields, an
//! enumeration carried as an integer, and repeated embedded messages.

use crate::decoder::{parse_int32, parse_string, Decoder};
use crate::encoder::{int32_bytes, string_bytes, Encoder};
use crate::error::WireError;
use crate::message::{
    lemma_parse_message_prefix, models_of, parse_message, read_message, repeated_bytes,
    write_repeated, Message,
};
use crate::roundtrip::{
    lemma_parse_int32_prefix, lemma_parse_string_prefix, lemma_reads_stay_in_bounds,
};
use vstd::prelude::*;

verus! {

/// The kind of a phone number, carried on the wire as an integer.
///
/// An integer that names no kind is kept as it came, so that a reader built
/// against an older schema loses nothing.
#[derive(Clone, Copy, Debug, PartialEq, Eq, Structural)]
pub enum PhoneType {
    /// A mobile phone; the default.
    Mobile,
    /// A phone at home.
    Home,
    /// A phone at work.
    Work,
    /// An integer this schema gives no name to.
    Unrecognized(i32),
}

impl PhoneType {
    /// The integer that stands for this kind on the wire.
    pub open spec fn number_spec(self) -> i32 {
        match self {
            PhoneType::Mobile => 0,
            PhoneType::Home => 1,
            PhoneType::Work => 2,
            PhoneType::Unrecognized(number) => number,
        }
    }

    /// The kind that `number` stands for: a named one where the schema has
    /// a name for it, `Unrecognized` with the number otherwise.
    pub open spec fn from_number_spec(number: i32) -> PhoneType {
        if number == 0 {
            PhoneType::Mobile
        } else if number == 1 {
            PhoneType::Home
        } else if number == 2 {
            PhoneType::Work
        } else {
            PhoneType::Unrecognized(number)
        }
    }

    /// The integer that stands for this kind on the wire.
    #[verifier::when_used_as_spec(number_spec)]
    pub fn number(self) -> (r: i32)
        ensures
            r == self.number_spec(),
    {
        match self {
            PhoneType::Mobile => 0,
            PhoneType::Home => 1,
            PhoneType::Work => 2,
            PhoneType::Unrecognized(number) => number,
        }
    }

    /// The kind that `number` stands for.
    pub fn from_number(number: i32) -> (r: PhoneType)
        ensures
            r == PhoneType::from_number_spec(number),
    {
        if number == 0 {
            PhoneType::Mobile
        } else if number == 1 {
            PhoneType::Home
        } else if number == 2 {
            PhoneType::Work
        } else {
            PhoneType::Unrecognized(number)
        }
    }

    /// Every integer survives the trip through a kind, and a kind read from
    /// an integer survives the trip through its integer.
    pub proof fn number_round_trip(number: i32)
        ensures
            PhoneType::from_number_spec(number).number_spec() == number,
            PhoneType::from_number_spec(PhoneType::from_number_spec(number).number_spec())
                == PhoneType::from_number_spec(number),
    {
    }
}

/// A phone number and its kind.
#[derive(Debug, PartialEq, Eq)]
pub struct PhoneNumber {
    /// The digits, as text. Field 1.
    pub number: String,
    /// The kind of phone. Field 2.
    pub type_: PhoneType,
}

/// The mathematical value of a `PhoneNumber`.
pub struct PhoneNumberModel {
    /// The digits, as text.
    pub number: Seq<char>,
    /// The kind of phone.
    pub type_: PhoneType,
}

impl Message for PhoneNumber {
    type Model = PhoneNumberModel;

    open spec fn model(&self) -> PhoneNumberModel {
        PhoneNumberModel { number: self.number@, type_: self.type_ }
    }

    open spec fn default_model() -> PhoneNumberModel {
        PhoneNumberModel { number: Seq::empty(), type_: PhoneType::Mobile }
    }

    open spec fn encoding(m: PhoneNumberModel) -> Seq<u8> {
        string_bytes(1, m.number) + int32_bytes(2, m.type_.number_spec())
    }

    open spec fn knows(field_number: u64) -> bool {
        field_number == 1 || field_number == 2
    }

    open spec fn merge_field(
        m: PhoneNumberModel,
        field_number: u64,
        wire_type: u32,
        rest: Seq<u8>,
    ) -> Result<(PhoneNumberModel, nat), WireError> {
        if field_number == 1 {
            match parse_string(rest, wire_type) {
                Ok((text, n)) => Ok((PhoneNumberModel { number: text, type_: m.type_ }, n)),
                Err(e) => Err(e),
            }
        } else {
            match parse_int32(rest, wire_type) {
                Ok((number, n)) => Ok(
                    (
                        PhoneNumberModel {
                            number: m.number,
                            type_: PhoneType::from_number_spec(number),
                        },
                        n,
                    ),
                ),
                Err(e) => Err(e),
            }
        }
    }

    proof fn merge_field_is_local(
        m: PhoneNumberModel,
        field_number: u64,
        wire_type: u32,
        s: Seq<u8>,
        rest: Seq<u8>,
    ) {
        lemma_parse_string_prefix(s, wire_type, rest);
        lemma_parse_int32_prefix(s, wire_type, rest);
    }

    proof fn merge_field_in_bounds(
        m: PhoneNumberModel,
        field_number: u64,
        wire_type: u32,
        s: Seq<u8>,
    ) {
        lemma_reads_stay_in_bounds(s, wire_type);
    }

    fn default_value() -> (message: PhoneNumber) {
        PhoneNumber { number: String::new(), type_: PhoneType::Mobile }
    }

    fn encode_inner(&self, encoder: &mut Encoder) {
        let _ = encoder.write_string(1, &self.number);
        let _ = encoder.write_int32(2, self.type_.number());
        assert(encoder.encoded@ =~= old(encoder).encoded@ + Self::encoding(self.model()));
    }

    fn decode_field(&mut self, field_number: u64, wire_type: u32, decoder: &mut Decoder) -> (r:
        Result<bool, WireError>) {
        if field_number == 1 {
            match decoder.read_string(wire_type) {
                Ok(text) => {
                    self.number = text;
                    Ok(true)
                },
                Err(e) => Err(e),
            }
        } else if field_number == 2 {
            match decoder.read_int32(wire_type) {
                Ok(number) => {
                    self.type_ = PhoneType::from_number(number);
                    Ok(true)
                },
                Err(e) => Err(e),
            }
        } else {
            Ok(false)
        }
    }
}

/// A person in the address book.
#[derive(Debug, PartialEq, Eq)]
pub struct Person {
    /// Field 1.
    pub name: String,
    /// Field 2.
    pub id: i32,
    /// Field 3.
    pub email: String,
    /// Field 4, repeated.
    pub phones: Vec<PhoneNumber>,
}

/// The mathematical value of a `Person`.
pub struct PersonModel {
    /// The person's name.
    pub name: Seq<char>,
    /// The person's number in the book.
    pub id: i32,
    /// The person's e-mail address.
    pub email: Seq<char>,
    /// The person's phone numbers, in order.
    pub phones: Seq<PhoneNumberModel>,
}

impl Message for Person {
    type Model = PersonModel;

    open spec fn model(&self) -> PersonModel {
        PersonModel {
            name: self.name@,
            id: self.id,
            email: self.email@,
            phones: models_of::<PhoneNumber>(self.phones@),
        }
    }

    open spec fn default_model() -> PersonModel {
        PersonModel { name: Seq::empty(), id: 0, email: Seq::empty(), phones: Seq::empty() }
    }

    open spec fn encoding(m: PersonModel) -> Seq<u8> {
        string_bytes(1, m.name) + int32_bytes(2, m.id) + string_bytes(3, m.email)
            + repeated_bytes::<PhoneNumber>(4, m.phones)
    }

    open spec fn knows(field_number: u64) -> bool {
        1 <= field_number <= 4
    }

    open spec fn merge_field(
        m: PersonModel,
        field_number: u64,
        wire_type: u32,
        rest: Seq<u8>,
    ) -> Result<(PersonModel, nat), WireError> {
        if field_number == 1 {
            match parse_string(rest, wire_type) {
                Ok((text, n)) => Ok(
                    (PersonModel { name: text, id: m.id, email: m.email, phones: m.phones }, n),
                ),
                Err(e) => Err(e),
            }
        } else if field_number == 2 {
            match parse_int32(rest, wire_type) {
                Ok((id, n)) => Ok(
                    (PersonModel { name: m.name, id: id, email: m.email, phones: m.phones }, n),
                ),
                Err(e) => Err(e),
            }
        } else if field_number == 3 {
            match parse_string(rest, wire_type) {
                Ok((text, n)) => Ok(
                    (PersonModel { name: m.name, id: m.id, email: text, phones: m.phones }, n),
                ),
                Err(e) => Err(e),
            }
        } else {
            match parse_message::<PhoneNumber>(rest, wire_type) {
                Ok((phone, n)) => Ok(
                    (
                        PersonModel {
                            name: m.name,
                            id: m.id,
                            email: m.email,
                            phones: m.phones.push(phone),
                        },
                        n,
                    ),
                ),
                Err(e) => Err(e),
            }
        }
    }

    proof fn merge_field_is_local(
        m: PersonModel,
        field_number: u64,
        wire_type: u32,
        s: Seq<u8>,
        rest: Seq<u8>,
    ) {
        lemma_parse_string_prefix(s, wire_type, rest);
        lemma_parse_int32_prefix(s, wire_type, rest);
        lemma_parse_message_prefix::<PhoneNumber>(s, wire_type, rest);
    }

    proof fn merge_field_in_bounds(m: PersonModel, field_number: u64, wire_type: u32, s: Seq<u8>) {
        lemma_reads_stay_in_bounds(s, wire_type);
        lemma_parse_message_prefix::<PhoneNumber>(s, wire_type, Seq::empty());
    }

    fn default_value() -> (message: Person) {
        let message = Person {
            name: String::new(),
            id: 0,
            email: String::new(),
            phones: Vec::new(),
        };
        assert(message.model().phones =~= Seq::empty());
        message
    }

    fn encode_inner(&self, encoder: &mut Encoder) {
        let _ = encoder.write_string(1, &self.name);
        let _ = encoder.write_int32(2, self.id);
        let _ = encoder.write_string(3, &self.email);
        let _ = write_repeated(encoder, 4, &self.phones);
        assert(encoder.encoded@ =~= old(encoder).encoded@ + Self::encoding(self.model()));
    }

    fn decode_field(&mut self, field_number: u64, wire_type: u32, decoder: &mut Decoder) -> (r:
        Result<bool, WireError>) {
        if field_number == 1 {
            match decoder.read_string(wire_type) {
                Ok(text) => {
                    self.name = text;
                    Ok(true)
                },
                Err(e) => Err(e),
            }
        } else if field_number == 2 {
            match decoder.read_int32(wire_type) {
                Ok(id) => {
                    self.id = id;
                    Ok(true)
                },
                Err(e) => Err(e),
            }
        } else if field_number == 3 {
            match decoder.read_string(wire_type) {
                Ok(text) => {
                    self.email = text;
                    Ok(true)
                },
                Err(e) => Err(e),
            }
        } else if field_number == 4 {
            match read_message::<PhoneNumber>(decoder, wire_type) {
                Ok(phone) => {
                    self.phones.push(phone);
                    assert(self.model().phones =~= old(self).model().phones.push(phone.model()));
                    Ok(true)
                },
                Err(e) => Err(e),
            }
        } else {
            Ok(false)
        }
    }
}

/// The whole book.
#[derive(Debug, PartialEq, Eq)]
pub struct AddressBook {
    /// Field 1, repeated.
    pub people: Vec<Person>,
}

/// The mathematical value of an `AddressBook`.
pub struct AddressBookModel {
    /// The people in the book, in order.
    pub people: Seq<PersonModel>,
}

impl Message for AddressBook {
    type Model = AddressBookModel;

    open spec fn model(&self) -> AddressBookModel {
        AddressBookModel { people: models_of::<Person>(self.people@) }
    }

    open spec fn default_model() -> AddressBookModel {
        AddressBookModel { people: Seq::empty() }
    }

    open spec fn encoding(m: AddressBookModel) -> Seq<u8> {
        repeated_bytes::<Person>(1, m.people)
    }

    open spec fn knows(field_number: u64) -> bool {
        field_number == 1
    }

    open spec fn merge_field(
        m: AddressBookModel,
        field_number: u64,
        wire_type: u32,
        rest: Seq<u8>,
    ) -> Result<(AddressBookModel, nat), WireError> {
        match parse_message::<Person>(rest, wire_type) {
            Ok((person, n)) => Ok((AddressBookModel { people: m.people.push(person) }, n)),
            Err(e) => Err(e),
        }
    }

    proof fn merge_field_is_local(
        m: AddressBookModel,
        field_number: u64,
        wire_type: u32,
        s: Seq<u8>,
        rest: Seq<u8>,
    ) {
        lemma_parse_message_prefix::<Person>(s, wire_type, rest);
    }

    proof fn merge_field_in_bounds(
        m: AddressBookModel,
        field_number: u64,
        wire_type: u32,
        s: Seq<u8>,
    ) {
        lemma_parse_message_prefix::<Person>(s, wire_type, Seq::empty());
    }

    fn default_value() -> (message: AddressBook) {
        let message = AddressBook { people: Vec::new() };
        assert(message.model().people =~= Seq::empty());
        message
    }

    fn encode_inner(&self, encoder: &mut Encoder) {
        let _ = write_repeated(encoder, 1, &self.people);
    }

    fn decode_field(&mut self, field_number: u64, wire_type: u32, decoder: &mut Decoder) -> (r:
        Result<bool, WireError>) {
        if field_number == 1 {
            match read_message::<Person>(decoder, wire_type) {
                Ok(person) => {
                    self.people.push(person);
                    assert(self.model().people =~= old(self).model().people.push(person.model()));
                    Ok(true)
                },
                Err(e) => Err(e),
            }
        } else {
            Ok(false)
        }
    }
}

impl Default for PhoneType {
    fn default() -> (r: PhoneType)
        ensures
            r == PhoneType::Mobile,
    {
        PhoneType::Mobile
    }
}

impl Default for PhoneNumber {
    fn default() -> (r: PhoneNumber)
        ensures
            r.model() == PhoneNumber::default_model(),
    {
        PhoneNumber::default_value()
    }
}

impl Default for Person {
    fn default() -> (r: Person)
        ensures
            r.model() == Person::default_model(),
    {
        Person::default_value()
    }
}

impl Default for AddressBook {
    fn default() -> (r: AddressBook)
        ensures
            r.model() == AddressBook::default_model(),
    {
        AddressBook::default_value()
    }
}

} // verus!
