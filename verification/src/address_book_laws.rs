//! Laws of the address book schema: what comes back from the wire, and why
//! a second trip changes nothing more.
//!
//! The functions here are proofs, stated over the models of the three
//! message types.

use crate::address_book::{
    AddressBook, AddressBookModel, Person, PersonModel, PhoneNumber, PhoneNumberModel, PhoneType,
};
use crate::encoder::{int32_bytes, length_delimited_bytes, length_prefixed, string_bytes};
use crate::error::WireError;
use crate::message::{decoded, merge_records, merge_step, repeated_bytes, Message};
use crate::roundtrip::{int32_reads_back, string_reads_back};
use crate::stream::{
    lemma_int32_field_is_read, lemma_length_delimited_field_is_read, lemma_repeated_bytes_len,
    lemma_string_field_is_read, message_reads_back,
};
use vstd::prelude::*;

verus! {

impl PhoneNumberModel {
    /// The value as it comes back from the wire: the kind named where the
    /// schema has a name for its integer.
    pub open spec fn normalized(self) -> PhoneNumberModel {
        PhoneNumberModel {
            number: self.number,
            type_: PhoneType::from_number_spec(self.type_.number_spec()),
        }
    }
}

/// Every phone number of `phones`, normalized.
pub open spec fn normalized_phones(phones: Seq<PhoneNumberModel>) -> Seq<PhoneNumberModel> {
    phones.map_values(|phone: PhoneNumberModel| phone.normalized())
}

impl PersonModel {
    /// The value as it comes back from the wire: every phone number
    /// normalized.
    pub open spec fn normalized(self) -> PersonModel {
        PersonModel {
            name: self.name,
            id: self.id,
            email: self.email,
            phones: normalized_phones(self.phones),
        }
    }
}

/// Every person of `people`, normalized.
pub open spec fn normalized_people(people: Seq<PersonModel>) -> Seq<PersonModel> {
    people.map_values(|person: PersonModel| person.normalized())
}

impl AddressBookModel {
    /// The value as it comes back from the wire: every person normalized.
    pub open spec fn normalized(self) -> AddressBookModel {
        AddressBookModel { people: normalized_people(self.people) }
    }
}

proof fn lemma_number_is_read(cur: PhoneNumberModel, number: Seq<char>, rest: Seq<u8>)
    requires
        string_bytes(1, number).len() <= u64::MAX,
        number.len() == 0 ==> cur.number == number,
    ensures
        merge_records::<PhoneNumber>(cur, string_bytes(1, number) + rest) == merge_records::<
            PhoneNumber,
        >(PhoneNumberModel { number: number, type_: cur.type_ }, rest),
{
    let next = PhoneNumberModel { number: number, type_: cur.type_ };
    if number.len() > 0 {
        string_reads_back(number, rest);
    }
    lemma_string_field_is_read::<PhoneNumber>(cur, 1, number, next, rest);
}

proof fn lemma_kind_is_read(cur: PhoneNumberModel, kind: i32, rest: Seq<u8>)
    requires
        kind == 0 ==> cur.type_ == PhoneType::Mobile,
    ensures
        merge_records::<PhoneNumber>(cur, int32_bytes(2, kind) + rest) == merge_records::<
            PhoneNumber,
        >(PhoneNumberModel { number: cur.number, type_: PhoneType::from_number_spec(kind) }, rest),
{
    let next = PhoneNumberModel { number: cur.number, type_: PhoneType::from_number_spec(kind) };
    if kind != 0 {
        int32_reads_back(kind, rest);
    }
    lemma_int32_field_is_read::<PhoneNumber>(cur, 2, kind, next, rest);
}

proof fn lemma_phone_number_decodes(m: PhoneNumberModel)
    requires
        PhoneNumber::encoding(m).len() <= u64::MAX,
    ensures
        decoded::<PhoneNumber>(PhoneNumber::encoding(m)) == Ok::<PhoneNumberModel, WireError>(
            m.normalized(),
        ),
{
    let start = PhoneNumber::default_model();
    let kind = m.type_.number_spec();
    let nothing = Seq::<u8>::empty();
    let behind_number = int32_bytes(2, kind) + nothing;
    let named = PhoneNumberModel { number: m.number, type_: start.type_ };
    assert(PhoneNumber::encoding(m) =~= string_bytes(1, m.number) + behind_number);
    assert(m.number.len() == 0 ==> m.number =~= start.number);
    lemma_number_is_read(start, m.number, behind_number);
    lemma_kind_is_read(named, kind, nothing);
}

proof fn lemma_phone_number_normal_form(m: PhoneNumberModel)
    ensures
        m.normalized().normalized() == m.normalized(),
        PhoneNumber::encoding(m.normalized()) == PhoneNumber::encoding(m),
{
    PhoneType::number_round_trip(m.type_.number_spec());
}

/// Decoding an encoded phone number gives the number back, its kind named
/// where the schema has a name for it, and a second trip changes nothing
/// more: the normalized value encodes to the same bytes and is its own
/// normal form. The encoding must fit the 64 bits of a length prefix, as
/// every encoding held in memory does.
pub proof fn phone_number_round_trip(m: PhoneNumberModel)
    requires
        PhoneNumber::encoding(m).len() <= u64::MAX,
    ensures
        decoded::<PhoneNumber>(PhoneNumber::encoding(m)) == Ok::<PhoneNumberModel, WireError>(
            m.normalized(),
        ),
        decoded::<PhoneNumber>(PhoneNumber::encoding(m.normalized())) == Ok::<
            PhoneNumberModel,
            WireError,
        >(m.normalized()),
        PhoneNumber::encoding(m.normalized()) == PhoneNumber::encoding(m),
        m.normalized().normalized() == m.normalized(),
{
    lemma_phone_number_decodes(m);
    lemma_phone_number_normal_form(m);
}

proof fn lemma_phone_is_read(reached: PersonModel, phone: PhoneNumberModel, rest: Seq<u8>)
    requires
        PhoneNumber::encoding(phone).len() <= u64::MAX,
    ensures
        merge_records::<Person>(
            reached,
            length_delimited_bytes(4, PhoneNumber::encoding(phone)) + rest,
        ) == merge_records::<Person>(
            PersonModel {
                name: reached.name,
                id: reached.id,
                email: reached.email,
                phones: reached.phones.push(phone.normalized()),
            },
            rest,
        ),
{
    let next = PersonModel {
        name: reached.name,
        id: reached.id,
        email: reached.email,
        phones: reached.phones.push(phone.normalized()),
    };
    let payload = PhoneNumber::encoding(phone);
    assert(merge_step::<Person>(reached, 4, 2, length_prefixed(payload) + rest) == Ok::<
        (PersonModel, nat),
        WireError,
    >((next, length_prefixed(payload).len()))) by {
        lemma_phone_number_decodes(phone);
        message_reads_back::<PhoneNumber>(phone, rest);
    }
    lemma_length_delimited_field_is_read::<Person>(reached, 4, payload, next, rest);
}

proof fn lemma_phones_are_read(m: PersonModel, phones: Seq<PhoneNumberModel>, rest: Seq<u8>)
    requires
        repeated_bytes::<PhoneNumber>(4, phones).len() <= u64::MAX,
    ensures
        merge_records::<Person>(m, repeated_bytes::<PhoneNumber>(4, phones) + rest)
            == merge_records::<Person>(
            PersonModel {
                name: m.name,
                id: m.id,
                email: m.email,
                phones: m.phones + normalized_phones(phones),
            },
            rest,
        ),
    decreases phones.len(),
{
    if phones.len() == 0 {
        assert(repeated_bytes::<PhoneNumber>(4, phones) + rest =~= rest);
        assert(m.phones + normalized_phones(phones) =~= m.phones);
    } else {
        let init = phones.drop_last();
        let last = phones.last();
        let record = length_delimited_bytes(4, PhoneNumber::encoding(last));
        let reached = PersonModel {
            name: m.name,
            id: m.id,
            email: m.email,
            phones: m.phones + normalized_phones(init),
        };
        lemma_repeated_bytes_len::<PhoneNumber>(4, phones);
        assert(repeated_bytes::<PhoneNumber>(4, phones) + rest =~= repeated_bytes::<PhoneNumber>(
            4,
            init,
        ) + (record + rest));
        lemma_phones_are_read(m, init, record + rest);
        lemma_phone_is_read(reached, last, rest);
        assert(reached.phones.push(last.normalized()) =~= m.phones + normalized_phones(phones));
    }
}

proof fn lemma_name_is_read(cur: PersonModel, name: Seq<char>, rest: Seq<u8>)
    requires
        string_bytes(1, name).len() <= u64::MAX,
        name.len() == 0 ==> cur.name == name,
    ensures
        merge_records::<Person>(cur, string_bytes(1, name) + rest) == merge_records::<Person>(
            PersonModel { name: name, id: cur.id, email: cur.email, phones: cur.phones },
            rest,
        ),
{
    let next = PersonModel { name: name, id: cur.id, email: cur.email, phones: cur.phones };
    if name.len() > 0 {
        string_reads_back(name, rest);
    }
    lemma_string_field_is_read::<Person>(cur, 1, name, next, rest);
}

proof fn lemma_id_is_read(cur: PersonModel, id: i32, rest: Seq<u8>)
    requires
        id == 0 ==> cur.id == id,
    ensures
        merge_records::<Person>(cur, int32_bytes(2, id) + rest) == merge_records::<Person>(
            PersonModel { name: cur.name, id: id, email: cur.email, phones: cur.phones },
            rest,
        ),
{
    let next = PersonModel { name: cur.name, id: id, email: cur.email, phones: cur.phones };
    if id != 0 {
        int32_reads_back(id, rest);
    }
    lemma_int32_field_is_read::<Person>(cur, 2, id, next, rest);
}

proof fn lemma_email_is_read(cur: PersonModel, email: Seq<char>, rest: Seq<u8>)
    requires
        string_bytes(3, email).len() <= u64::MAX,
        email.len() == 0 ==> cur.email == email,
    ensures
        merge_records::<Person>(cur, string_bytes(3, email) + rest) == merge_records::<Person>(
            PersonModel { name: cur.name, id: cur.id, email: email, phones: cur.phones },
            rest,
        ),
{
    let next = PersonModel { name: cur.name, id: cur.id, email: email, phones: cur.phones };
    if email.len() > 0 {
        string_reads_back(email, rest);
    }
    lemma_string_field_is_read::<Person>(cur, 3, email, next, rest);
}

proof fn lemma_person_decodes(m: PersonModel)
    requires
        Person::encoding(m).len() <= u64::MAX,
    ensures
        decoded::<Person>(Person::encoding(m)) == Ok::<PersonModel, WireError>(m.normalized()),
{
    let start = Person::default_model();
    let name_bytes = string_bytes(1, m.name);
    let id_bytes = int32_bytes(2, m.id);
    let email_bytes = string_bytes(3, m.email);
    let phone_bytes = repeated_bytes::<PhoneNumber>(4, m.phones);
    let named = PersonModel { name: m.name, id: 0, email: start.email, phones: start.phones };
    let numbered = PersonModel { name: m.name, id: m.id, email: start.email, phones: start.phones };
    let addressed = PersonModel { name: m.name, id: m.id, email: m.email, phones: start.phones };
    let nothing = Seq::<u8>::empty();
    let behind_email = phone_bytes + nothing;
    let behind_id = email_bytes + behind_email;
    let behind_name = id_bytes + behind_id;
    assert(Person::encoding(m) =~= name_bytes + behind_name);
    assert(m.name.len() == 0 ==> m.name =~= start.name);
    assert(m.email.len() == 0 ==> m.email =~= start.email);
    lemma_name_is_read(start, m.name, behind_name);
    lemma_id_is_read(named, m.id, behind_id);
    lemma_email_is_read(numbered, m.email, behind_email);
    lemma_phones_are_read(addressed, m.phones, nothing);
    assert(addressed.phones + normalized_phones(m.phones) =~= m.normalized().phones);
}

proof fn lemma_normalized_phones_encode_alike(phones: Seq<PhoneNumberModel>)
    ensures
        repeated_bytes::<PhoneNumber>(4, normalized_phones(phones)) == repeated_bytes::<
            PhoneNumber,
        >(4, phones),
        normalized_phones(normalized_phones(phones)) == normalized_phones(phones),
    decreases phones.len(),
{
    if phones.len() > 0 {
        lemma_normalized_phones_encode_alike(phones.drop_last());
        assert(normalized_phones(phones).drop_last() =~= normalized_phones(phones.drop_last()));
        lemma_phone_number_normal_form(phones.last());
    }
    assert(normalized_phones(normalized_phones(phones)) =~= normalized_phones(phones)) by {
        assert forall|i: int| 0 <= i < phones.len() implies normalized_phones(
            normalized_phones(phones),
        )[i] == normalized_phones(phones)[i] by {
            lemma_phone_number_normal_form(phones[i]);
        }
    }
}

proof fn lemma_person_normal_form(m: PersonModel)
    ensures
        m.normalized().normalized() == m.normalized(),
        Person::encoding(m.normalized()) == Person::encoding(m),
{
    lemma_normalized_phones_encode_alike(m.phones);
}

/// Decoding an encoded person gives the person back, normalized, and a
/// second trip changes nothing more. The encoding must fit the 64 bits of a
/// length prefix.
pub proof fn person_round_trip(m: PersonModel)
    requires
        Person::encoding(m).len() <= u64::MAX,
    ensures
        decoded::<Person>(Person::encoding(m)) == Ok::<PersonModel, WireError>(m.normalized()),
        decoded::<Person>(Person::encoding(m.normalized())) == Ok::<PersonModel, WireError>(
            m.normalized(),
        ),
        Person::encoding(m.normalized()) == Person::encoding(m),
        m.normalized().normalized() == m.normalized(),
{
    lemma_person_decodes(m);
    lemma_person_normal_form(m);
}

proof fn lemma_person_is_read(reached: AddressBookModel, person: PersonModel, rest: Seq<u8>)
    requires
        Person::encoding(person).len() <= u64::MAX,
    ensures
        merge_records::<AddressBook>(
            reached,
            length_delimited_bytes(1, Person::encoding(person)) + rest,
        ) == merge_records::<AddressBook>(
            AddressBookModel { people: reached.people.push(person.normalized()) },
            rest,
        ),
{
    let next = AddressBookModel { people: reached.people.push(person.normalized()) };
    let payload = Person::encoding(person);
    assert(merge_step::<AddressBook>(reached, 1, 2, length_prefixed(payload) + rest) == Ok::<
        (AddressBookModel, nat),
        WireError,
    >((next, length_prefixed(payload).len()))) by {
        lemma_person_decodes(person);
        message_reads_back::<Person>(person, rest);
    }
    lemma_length_delimited_field_is_read::<AddressBook>(reached, 1, payload, next, rest);
}

proof fn lemma_people_are_read(m: AddressBookModel, people: Seq<PersonModel>, rest: Seq<u8>)
    requires
        repeated_bytes::<Person>(1, people).len() <= u64::MAX,
    ensures
        merge_records::<AddressBook>(m, repeated_bytes::<Person>(1, people) + rest)
            == merge_records::<AddressBook>(
            AddressBookModel { people: m.people + normalized_people(people) },
            rest,
        ),
    decreases people.len(),
{
    if people.len() == 0 {
        assert(repeated_bytes::<Person>(1, people) + rest =~= rest);
        assert(m.people + normalized_people(people) =~= m.people);
    } else {
        let init = people.drop_last();
        let last = people.last();
        let record = length_delimited_bytes(1, Person::encoding(last));
        let reached = AddressBookModel { people: m.people + normalized_people(init) };
        lemma_repeated_bytes_len::<Person>(1, people);
        assert(repeated_bytes::<Person>(1, people) + rest =~= repeated_bytes::<Person>(1, init) + (
        record + rest));
        lemma_people_are_read(m, init, record + rest);
        lemma_person_is_read(reached, last, rest);
        assert(reached.people.push(last.normalized()) =~= m.people + normalized_people(people));
    }
}

proof fn lemma_normalized_people_encode_alike(people: Seq<PersonModel>)
    ensures
        repeated_bytes::<Person>(1, normalized_people(people)) == repeated_bytes::<Person>(
            1,
            people,
        ),
        normalized_people(normalized_people(people)) == normalized_people(people),
    decreases people.len(),
{
    if people.len() > 0 {
        lemma_normalized_people_encode_alike(people.drop_last());
        assert(normalized_people(people).drop_last() =~= normalized_people(people.drop_last()));
        lemma_person_normal_form(people.last());
    }
    assert(normalized_people(normalized_people(people)) =~= normalized_people(people)) by {
        assert forall|i: int| 0 <= i < people.len() implies normalized_people(
            normalized_people(people),
        )[i] == normalized_people(people)[i] by {
            lemma_person_normal_form(people[i]);
        }
    }
}

/// Decoding an encoded address book gives the book back, normalized, and a
/// second trip changes nothing more: the normalized book encodes to the
/// same bytes and is its own normal form. The encoding must fit the 64 bits
/// of a length prefix.
pub proof fn address_book_round_trip(m: AddressBookModel)
    requires
        AddressBook::encoding(m).len() <= u64::MAX,
    ensures
        decoded::<AddressBook>(AddressBook::encoding(m)) == Ok::<AddressBookModel, WireError>(
            m.normalized(),
        ),
        decoded::<AddressBook>(AddressBook::encoding(m.normalized())) == Ok::<
            AddressBookModel,
            WireError,
        >(m.normalized()),
        AddressBook::encoding(m.normalized()) == AddressBook::encoding(m),
        m.normalized().normalized() == m.normalized(),
{
    let start = AddressBook::default_model();
    let bytes = repeated_bytes::<Person>(1, m.people);
    lemma_people_are_read(start, m.people, Seq::empty());
    assert(bytes + Seq::<u8>::empty() =~= bytes);
    assert(start.people + normalized_people(m.people) =~= m.normalized().people);
    lemma_normalized_people_encode_alike(m.people);
}

/// A message whose scalar fields are all at their defaults encodes to the
/// records of its repeated fields and nothing else; with no elements
/// either, to no bytes at all.
pub proof fn default_scalars_are_omitted(phone: PhoneNumberModel, person: PersonModel)
    requires
        phone.number.len() == 0,
        phone.type_.number_spec() == 0,
        person.name.len() == 0,
        person.id == 0,
        person.email.len() == 0,
    ensures
        PhoneNumber::encoding(phone) == Seq::<u8>::empty(),
        Person::encoding(person) == repeated_bytes::<PhoneNumber>(4, person.phones),
        PhoneNumber::encoding(PhoneNumber::default_model()) == Seq::<u8>::empty(),
        Person::encoding(Person::default_model()) == Seq::<u8>::empty(),
        AddressBook::encoding(AddressBook::default_model()) == Seq::<u8>::empty(),
{
    assert(PhoneNumber::encoding(phone) =~= Seq::<u8>::empty());
    assert(Person::encoding(person) =~= repeated_bytes::<PhoneNumber>(4, person.phones));
    assert(PhoneNumber::encoding(PhoneNumber::default_model()) =~= Seq::<u8>::empty());
    assert(Person::encoding(Person::default_model()) =~= Seq::<u8>::empty());
}

} // verus!
