//! Reading the rows of the two tables back into records and counters.

use crate::api_types::{mail_views, user_views, ListEmailsResponse, ListUsersResponse, User, UserView};
use crate::decimal::{
    fixed_value, lemma_fixed_digits, lemma_parse_inverts_format, parse_decimal, parse_fixed, parsed,
    pow10,
};
use crate::text::to_chars;
use crate::record::{Mail, MailView, RecordFields, RecordKey};
use crate::wire::{
    attribute_views, record_item, sort_key, time_offset, Attribute, AttributeValue,
    AttributeValueView, AttributeView, KEY_SEPARATOR, TIME_DIGITS,
};
use vstd::prelude::*;
use vstd::string::*;

verus! {

/// The attribute that a row lacks, or holds in a form that cannot be read.
#[derive(Clone, Copy, Debug, PartialEq, Eq, Structural)]
pub enum DecodeError {
    Pk,
    Sk,
    Subject,
    FirstSentence,
    SchemaVersion,
    MessageCount,
}

/// A row as the table sees it: each name with its value, a later attribute
/// of the same name replacing an earlier one.
pub open spec fn attributes(row: Seq<AttributeView>) -> Map<Seq<char>, AttributeValueView>
    decreases row.len(),
{
    if row.len() == 0 {
        Map::empty()
    } else {
        attributes(row.drop_last()).insert(row.last().name, row.last().value)
    }
}

/// The value of the attribute `name`, if the row has it.
pub open spec fn value_at(
    row: Map<Seq<char>, AttributeValueView>,
    name: Seq<char>,
) -> Option<AttributeValueView> {
    if row.dom().contains(name) {
        Some(row[name])
    } else {
        None
    }
}

/// The string that the attribute `name` holds.
pub open spec fn text_at(row: Map<Seq<char>, AttributeValueView>, name: Seq<char>) -> Option<
    Seq<char>,
> {
    match value_at(row, name) {
        Some(AttributeValueView::S(text)) => Some(text),
        _ => None,
    }
}

/// The 64-bit integer that the attribute `name` holds.
pub open spec fn number_at(row: Map<Seq<char>, AttributeValueView>, name: Seq<char>) -> Option<
    i64,
> {
    match value_at(row, name) {
        Some(AttributeValueView::N(numeral)) => parsed(numeral),
        _ => None,
    }
}

/// The layout version that a row states. A row without the attribute is of
/// the time before versions were written and reads as version 0.
pub open spec fn version_at(row: Map<Seq<char>, AttributeValueView>) -> Option<u32> {
    if row.dom().contains("schema_version"@) {
        match number_at(row, "schema_version"@) {
            Some(v) => if 0 <= v <= u32::MAX {
                Some(v as u32)
            } else {
                None
            },
            None => None,
        }
    } else {
        Some(0)
    }
}

/// The preview that a row holds. A row without the attribute has none,
/// which reads as the empty preview.
pub open spec fn preview_at(row: Map<Seq<char>, AttributeValueView>) -> Option<Seq<char>> {
    if row.dom().contains("first_sentence"@) {
        text_at(row, "first_sentence"@)
    } else {
        Some(Seq::empty())
    }
}

/// The time and the message identifier that a sort key holds: twenty
/// digits that stand for the offset of a time, the separator, and the
/// identifier behind it.
pub open spec fn sort_key_parts(sk: Seq<char>) -> Option<(i64, Seq<char>)> {
    let width = TIME_DIGITS as int;
    if sk.len() > width && sk[width] == KEY_SEPARATOR {
        match fixed_value(sk.take(width)) {
            Some(offset) => Some(((offset + i64::MIN) as i64, sk.skip(width + 1))),
            None => None,
        }
    } else {
        None
    }
}

/// The key that the key attributes of a row hold: `pk` is the recipient,
/// `sk` gives the time and the message identifier.
pub open spec fn key_of(pk: Seq<char>, sk: Seq<char>) -> Option<RecordKey> {
    match sort_key_parts(sk) {
        Some((received_at, message_id)) => Some(
            RecordKey { recipient: pk, received_at, message_id },
        ),
        None => None,
    }
}

/// The key that a row holds in its key attributes.
pub open spec fn key_at(row: Map<Seq<char>, AttributeValueView>) -> Option<RecordKey> {
    match (text_at(row, "pk"@), text_at(row, "sk"@)) {
        (Some(pk), Some(sk)) => key_of(pk, sk),
        _ => None,
    }
}

/// The record that a row of the ledger holds, or the first attribute, in the
/// order key, subject, preview, version, that stands in the way. The key is
/// read from the key attributes alone.
pub open spec fn mail_of(row: Map<Seq<char>, AttributeValueView>) -> Result<MailView, DecodeError> {
    if text_at(row, "pk"@) is None {
        Err(DecodeError::Pk)
    } else if key_at(row) is None {
        Err(DecodeError::Sk)
    } else if text_at(row, "subject"@) is None {
        Err(DecodeError::Subject)
    } else if preview_at(row) is None {
        Err(DecodeError::FirstSentence)
    } else if version_at(row) is None {
        Err(DecodeError::SchemaVersion)
    } else {
        Ok(
            MailView {
                key: key_at(row)->0,
                fields: RecordFields {
                    subject: text_at(row, "subject"@)->0,
                    first_sentence: preview_at(row)->0,
                    schema_version: version_at(row)->0,
                },
            },
        )
    }
}

/// The counter that a row of the counter table holds, or the first
/// attribute that stands in the way.
pub open spec fn user_of(row: Map<Seq<char>, AttributeValueView>) -> Result<UserView, DecodeError> {
    if text_at(row, "pk"@) is None {
        Err(DecodeError::Pk)
    } else if text_at(row, "sk"@) is None {
        Err(DecodeError::Sk)
    } else if number_at(row, "message_count"@) is None {
        Err(DecodeError::MessageCount)
    } else {
        Ok(
            UserView {
                pk: text_at(row, "pk"@)->0,
                sk: text_at(row, "sk"@)->0,
                message_count: number_at(row, "message_count"@)->0,
            },
        )
    }
}

/// The records of a run of rows, or the error of the first row that holds
/// none.
pub open spec fn mails_of(rows: Seq<Seq<AttributeView>>) -> Result<Seq<MailView>, DecodeError>
    decreases rows.len(),
{
    if rows.len() == 0 {
        Ok(Seq::empty())
    } else {
        match mails_of(rows.drop_last()) {
            Err(e) => Err(e),
            Ok(mails) => match mail_of(attributes(rows.last())) {
                Ok(mail) => Ok(mails.push(mail)),
                Err(e) => Err(e),
            },
        }
    }
}

/// The counters of a run of rows, or the error of the first row that holds
/// none.
pub open spec fn users_of(rows: Seq<Seq<AttributeView>>) -> Result<Seq<UserView>, DecodeError>
    decreases rows.len(),
{
    if rows.len() == 0 {
        Ok(Seq::empty())
    } else {
        match users_of(rows.drop_last()) {
            Err(e) => Err(e),
            Ok(users) => match user_of(attributes(rows.last())) {
                Ok(user) => Ok(users.push(user)),
                Err(e) => Err(e),
            },
        }
    }
}

/// The views of a run of rows.
pub open spec fn row_views(rows: Seq<Vec<Attribute>>) -> Seq<Seq<AttributeView>> {
    Seq::new(rows.len(), |i: int| attribute_views(rows[i]@))
}

/// The view of an optional attribute value.
pub open spec fn value_view(value: Option<&AttributeValue>) -> Option<AttributeValueView> {
    match value {
        Some(v) => Some(v@),
        None => None,
    }
}

/// Looks up the attribute `name` of a row.
pub fn find<'a>(row: &'a Vec<Attribute>, name: &str) -> (value: Option<&'a AttributeValue>)
    ensures
        value_view(value) == value_at(attributes(attribute_views(row@)), name@),
{
    let wanted = String::from_str(name);
    let ghost all = attribute_views(row@);
    let mut i: usize = row.len();
    assert(all.take(i as int) =~= all);
    while i > 0
        invariant
            i <= row.len(),
            wanted@ == name@,
            all == attribute_views(row@),
            value_at(attributes(all), name@) == value_at(attributes(all.take(i as int)), name@),
        decreases i,
    {
        i -= 1;
        assert(all.take(i + 1).drop_last() =~= all.take(i as int));
        assert(all.take(i + 1).last() == row[i as int]@);
        if row[i].name == wanted {
            return Some(&row[i].value);
        }
    }
    None
}

fn read_text(row: &Vec<Attribute>, name: &str) -> (text: Option<String>)
    ensures
        match text {
            Some(t) => Some(t@),
            None => None,
        } == text_at(attributes(attribute_views(row@)), name@),
{
    match find(row, name) {
        Some(AttributeValue::S(text)) => Some(text.clone()),
        _ => None,
    }
}

fn read_number(row: &Vec<Attribute>, name: &str) -> (number: Option<i64>)
    ensures
        number == number_at(attributes(attribute_views(row@)), name@),
{
    match find(row, name) {
        Some(AttributeValue::N(numeral)) => parse_decimal(numeral.as_str()),
        _ => None,
    }
}

/// Whether the row has an attribute `name`.
fn has(row: &Vec<Attribute>, name: &str) -> (present: bool)
    ensures
        present == attributes(attribute_views(row@)).dom().contains(name@),
{
    find(row, name).is_some()
}

/// Reads the time and the message identifier out of a sort key.
pub fn read_sort_key(sk: &str) -> (parts: Option<(i64, String)>)
    ensures
        match parts {
            Some((received_at, message_id)) => Some((received_at, message_id@)),
            None => None,
        } == sort_key_parts(sk@),
{
    let chars = to_chars(sk);
    let n = chars.len();
    if n <= TIME_DIGITS || chars[TIME_DIGITS] != KEY_SEPARATOR {
        return None;
    }
    assert(chars@.subrange(0, TIME_DIGITS as int) =~= sk@.take(TIME_DIGITS as int));
    let offset = match parse_fixed(&chars, 0, TIME_DIGITS) {
        Some(offset) => offset,
        None => {
            return None;
        },
    };
    let received_at: i64 = (offset as i128 - 0x8000_0000_0000_0000) as i64;
    let mut message_id = String::new();
    message_id.append(sk.substring_char(TIME_DIGITS + 1, n));
    assert(message_id@ =~= sk@.skip(TIME_DIGITS as int + 1));
    Some((received_at, message_id))
}

/// Reads a row of the ledger.
pub fn decode_mail(row: &Vec<Attribute>) -> (mail: Result<Mail, DecodeError>)
    ensures
        match mail {
            Ok(m) => Ok(m@),
            Err(e) => Err(e),
        } == mail_of(attributes(attribute_views(row@))),
{
    let pk = match read_text(row, "pk") {
        Some(pk) => pk,
        None => {
            return Err(DecodeError::Pk);
        },
    };
    let sort_key = match read_text(row, "sk") {
        Some(sk) => sk,
        None => {
            return Err(DecodeError::Sk);
        },
    };
    let (sk, message_id) = match read_sort_key(sort_key.as_str()) {
        Some(parts) => parts,
        None => {
            return Err(DecodeError::Sk);
        },
    };
    let subject = match read_text(row, "subject") {
        Some(subject) => subject,
        None => {
            return Err(DecodeError::Subject);
        },
    };
    let first_sentence = if has(row, "first_sentence") {
        match read_text(row, "first_sentence") {
            Some(preview) => preview,
            None => {
                return Err(DecodeError::FirstSentence);
            },
        }
    } else {
        String::new()
    };
    let schema_version: u32 = if has(row, "schema_version") {
        match read_number(row, "schema_version") {
            Some(v) => {
                if 0 <= v && v <= 0xFFFF_FFFF {
                    v as u32
                } else {
                    return Err(DecodeError::SchemaVersion);
                }
            },
            None => {
                return Err(DecodeError::SchemaVersion);
            },
        }
    } else {
        0
    };
    Ok(Mail { pk, sk, message_id, subject, first_sentence, schema_version })
}

/// Reads a row of the counter table.
pub fn decode_user(row: &Vec<Attribute>) -> (user: Result<User, DecodeError>)
    ensures
        match user {
            Ok(u) => Ok(u@),
            Err(e) => Err(e),
        } == user_of(attributes(attribute_views(row@))),
{
    let pk = match read_text(row, "pk") {
        Some(pk) => pk,
        None => {
            return Err(DecodeError::Pk);
        },
    };
    let sk = match read_text(row, "sk") {
        Some(sk) => sk,
        None => {
            return Err(DecodeError::Sk);
        },
    };
    let message_count = match read_number(row, "message_count") {
        Some(count) => count,
        None => {
            return Err(DecodeError::MessageCount);
        },
    };
    Ok(User { pk, sk, message_count })
}

/// Reads the rows that a query of the ledger returned, in their order.
/// Fails on the first row that is no record.
pub fn list_emails(rows: &Vec<Vec<Attribute>>) -> (response: Result<ListEmailsResponse, DecodeError>)
    ensures
        match response {
            Ok(r) => Ok(r@),
            Err(e) => Err(e),
        } == mails_of(row_views(rows@)),
{
    let ghost all = row_views(rows@);
    let mut data: Vec<Mail> = Vec::new();
    let mut i: usize = 0;
    assert(all.take(0) =~= Seq::<Seq<AttributeView>>::empty());
    assert(mail_views(data@) =~= Seq::<MailView>::empty());
    while i < rows.len()
        invariant
            i <= rows.len(),
            all == row_views(rows@),
            mails_of(all.take(i as int)) == Ok::<Seq<MailView>, DecodeError>(mail_views(data@)),
        decreases rows.len() - i,
    {
        let ghost before = mail_views(data@);
        proof {
            assert(all.take(i + 1).drop_last() =~= all.take(i as int));
            assert(all.take(i + 1).last() == attribute_views(rows[i as int]@));
        }
        match decode_mail(&rows[i]) {
            Ok(mail) => {
                data.push(mail);
                assert(mail_views(data@) =~= before.push(mail@));
            },
            Err(e) => {
                proof {
                    lemma_mails_of_error(all, i + 1);
                }
                return Err(e);
            },
        }
        i += 1;
    }
    assert(all.take(i as int) =~= all);
    Ok(ListEmailsResponse { data })
}

/// Reads the rows that a query of the counter table returned, in their
/// order. Fails on the first row that is no counter.
pub fn list_users(rows: &Vec<Vec<Attribute>>) -> (response: Result<ListUsersResponse, DecodeError>)
    ensures
        match response {
            Ok(r) => Ok(r@),
            Err(e) => Err(e),
        } == users_of(row_views(rows@)),
{
    let ghost all = row_views(rows@);
    let mut data: Vec<User> = Vec::new();
    let mut i: usize = 0;
    assert(all.take(0) =~= Seq::<Seq<AttributeView>>::empty());
    assert(user_views(data@) =~= Seq::<UserView>::empty());
    while i < rows.len()
        invariant
            i <= rows.len(),
            all == row_views(rows@),
            users_of(all.take(i as int)) == Ok::<Seq<UserView>, DecodeError>(user_views(data@)),
        decreases rows.len() - i,
    {
        let ghost before = user_views(data@);
        proof {
            assert(all.take(i + 1).drop_last() =~= all.take(i as int));
            assert(all.take(i + 1).last() == attribute_views(rows[i as int]@));
        }
        match decode_user(&rows[i]) {
            Ok(user) => {
                data.push(user);
                assert(user_views(data@) =~= before.push(user@));
            },
            Err(e) => {
                proof {
                    lemma_users_of_error(all, i + 1);
                }
                return Err(e);
            },
        }
        i += 1;
    }
    assert(all.take(i as int) =~= all);
    Ok(ListUsersResponse { data })
}

/// An error among the first `k` rows is the error of all rows.
proof fn lemma_mails_of_error(rows: Seq<Seq<AttributeView>>, k: int)
    requires
        0 <= k <= rows.len(),
        mails_of(rows.take(k)) is Err,
    ensures
        mails_of(rows) == mails_of(rows.take(k)),
    decreases rows.len() - k,
{
    if k < rows.len() {
        assert(rows.take(k + 1).drop_last() =~= rows.take(k));
        lemma_mails_of_error(rows, k + 1);
    } else {
        assert(rows.take(k) =~= rows);
    }
}

/// An error among the first `k` rows is the error of all rows.
proof fn lemma_users_of_error(rows: Seq<Seq<AttributeView>>, k: int)
    requires
        0 <= k <= rows.len(),
        users_of(rows.take(k)) is Err,
    ensures
        users_of(rows) == users_of(rows.take(k)),
    decreases rows.len() - k,
{
    if k < rows.len() {
        assert(rows.take(k + 1).drop_last() =~= rows.take(k));
        lemma_users_of_error(rows, k + 1);
    } else {
        assert(rows.take(k) =~= rows);
    }
}

/// A sort key reads back as the time and the message identifier that it was
/// written for.
pub proof fn lemma_sort_key_reads_back(received_at: i64, message_id: Seq<char>)
    ensures
        sort_key_parts(sort_key(received_at, message_id)) == Some((received_at, message_id)),
{
    let width = TIME_DIGITS as nat;
    let digits = crate::decimal::fixed_digits(time_offset(received_at), width);
    let sk = sort_key(received_at, message_id);
    assert(pow10(width) > u64::MAX) by {
        reveal_with_fuel(pow10, 21);
    }
    lemma_fixed_digits(time_offset(received_at), width);
    assert(sk.take(width as int) =~= digits);
    assert(sk[width as int] == KEY_SEPARATOR);
    assert(sk.skip(width as int + 1) =~= message_id);
}

/// The key attributes of a row determine the key of its record: two
/// records whose rows agree in `pk` and `sk` have the same recipient, time
/// and message identifier, and so stand in the same place of the ledger.
pub proof fn lemma_key_attributes_determine_key(one: MailView, other: MailView)
    requires
        record_item(one)[0] == record_item(other)[0],
        record_item(one)[1] == record_item(other)[1],
    ensures
        one.key == other.key,
{
    lemma_sort_key_reads_back(one.key.received_at, one.key.message_id);
    lemma_sort_key_reads_back(other.key.received_at, other.key.message_id);
}

/// A record that is written as a row reads back as itself: the key
/// attributes carry the key, the others every field, and nothing of the
/// record is lost or merged.
pub proof fn lemma_row_holds_record(record: MailView)
    ensures
        mail_of(attributes(record_item(record))) == Ok::<MailView, DecodeError>(record),
        key_at(attributes(record_item(record))) == Some(record.key),
{
    reveal_strlit("pk");
    reveal_strlit("sk");
    reveal_strlit("subject");
    reveal_strlit("first_sentence");
    reveal_strlit("schema_version");
    let row = record_item(record);
    let r4 = row.drop_last();
    let r3 = r4.drop_last();
    let r2 = r3.drop_last();
    let r1 = r2.drop_last();
    assert(r1.drop_last().len() == 0);
    assert(attributes(r1.drop_last()) == Map::<Seq<char>, AttributeValueView>::empty());
    assert(attributes(r1) == attributes(r1.drop_last()).insert(r1.last().name, r1.last().value));
    assert(attributes(r2) == attributes(r1).insert(r2.last().name, r2.last().value));
    assert(attributes(r3) == attributes(r2).insert(r3.last().name, r3.last().value));
    assert(attributes(r4) == attributes(r3).insert(r4.last().name, r4.last().value));
    assert(attributes(row) == attributes(r4).insert(row.last().name, row.last().value));
    lemma_sort_key_reads_back(record.key.received_at, record.key.message_id);
    lemma_parse_inverts_format(record.fields.schema_version as i64);
    let m = attributes(row);
    assert("pk"@.len() == 2 && "sk"@.len() == 2);
    assert("pk"@[0] != "sk"@[0]);
    assert("subject"@.len() == 7);
    assert("first_sentence"@.len() == 14);
    assert("schema_version"@.len() == 14);
    assert("first_sentence"@[0] != "schema_version"@[0]);
    assert(text_at(m, "pk"@) == Some(record.key.recipient));
    assert(text_at(m, "sk"@) == Some(sort_key(record.key.received_at, record.key.message_id)));
    assert(key_at(m) == Some(record.key));
    assert(mail_of(m) is Ok);
    assert(mail_of(m)->Ok_0.key == record.key);
    assert(mail_of(m)->Ok_0.fields == record.fields);
}

/// No two attributes of the row have the same name.
pub open spec fn distinct_names(row: Seq<AttributeView>) -> bool {
    forall|i: int, j: int| 0 <= i < j < row.len() ==> row[i].name != row[j].name
}

/// The names that a row knows are those of its attributes.
proof fn lemma_attribute_names(row: Seq<AttributeView>, name: Seq<char>)
    ensures
        attributes(row).dom().contains(name) <==> exists|j: int|
            0 <= j < row.len() && (#[trigger] row[j]).name == name,
    decreases row.len(),
{
    if row.len() > 0 {
        let front = row.drop_last();
        lemma_attribute_names(front, name);
        if attributes(row).dom().contains(name) {
            if row.last().name == name {
                assert(row[row.len() - 1].name == name);
            } else {
                let j = choose|j: int| 0 <= j < front.len() && (#[trigger] front[j]).name == name;
                assert(row[j].name == name);
            }
        }
        if exists|j: int| 0 <= j < row.len() && (#[trigger] row[j]).name == name {
            let j = choose|j: int| 0 <= j < row.len() && (#[trigger] row[j]).name == name;
            if j < row.len() - 1 {
                assert(front[j].name == name);
            }
        }
    }
}

/// Where no name occurs twice, each attribute of the row is what the row
/// holds under its name.
proof fn lemma_attribute_values(row: Seq<AttributeView>, j: int)
    requires
        distinct_names(row),
        0 <= j < row.len(),
    ensures
        attributes(row).dom().contains(row[j].name),
        attributes(row)[row[j].name] == row[j].value,
    decreases row.len(),
{
    if j < row.len() - 1 {
        let front = row.drop_last();
        assert(distinct_names(front)) by {
            assert forall|a: int, b: int| 0 <= a < b < front.len() implies front[a].name
                != front[b].name by {
                assert(row[a].name != row[b].name);
            }
        }
        lemma_attribute_values(front, j);
    }
}

/// The order of the attributes of a row does not matter: two runs of the
/// same attributes, none of them named twice, are the same row. So a row
/// reads the same however the store hands its attributes over.
pub proof fn lemma_attribute_order_is_irrelevant(one: Seq<AttributeView>, other: Seq<AttributeView>)
    requires
        distinct_names(one),
        distinct_names(other),
        forall|a: AttributeView| one.contains(a) <==> other.contains(a),
    ensures
        attributes(one) == attributes(other),
        mail_of(attributes(one)) == mail_of(attributes(other)),
        user_of(attributes(one)) == user_of(attributes(other)),
{
    let a = attributes(one);
    let b = attributes(other);
    assert forall|name: Seq<char>| #[trigger] a.dom().contains(name) == b.dom().contains(name) by {
        lemma_attribute_names(one, name);
        lemma_attribute_names(other, name);
        if a.dom().contains(name) {
            let j = choose|j: int| 0 <= j < one.len() && (#[trigger] one[j]).name == name;
            assert(one.contains(one[j]));
            let k = choose|k: int| 0 <= k < other.len() && other[k] == one[j];
            assert(other[k].name == name);
        }
        if b.dom().contains(name) {
            let k = choose|k: int| 0 <= k < other.len() && (#[trigger] other[k]).name == name;
            assert(other.contains(other[k]));
            let j = choose|j: int| 0 <= j < one.len() && one[j] == other[k];
            assert(one[j].name == name);
        }
    }
    assert forall|name: Seq<char>| #[trigger] a.dom().contains(name) implies a[name] == b[name] by {
        lemma_attribute_names(one, name);
        let j = choose|j: int| 0 <= j < one.len() && (#[trigger] one[j]).name == name;
        assert(one.contains(one[j]));
        let k = choose|k: int| 0 <= k < other.len() && other[k] == one[j];
        lemma_attribute_values(one, j);
        lemma_attribute_values(other, k);
    }
    assert(a =~= b);
}

} // verus!
