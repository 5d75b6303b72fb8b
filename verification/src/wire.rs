//! The requests that the pipeline sends to the stores, and the rows that
//! come back from them, down to the attributes.

use crate::decimal::{
    comes_before, decimal, fixed_digits, format_decimal, format_fixed, lemma_fixed_digits,
    lemma_fixed_digits_order, pow10,
};
use crate::orchestrator::{Command, CommandView};
use crate::record::{Mail, MailView};
use crate::state::{MailConfig, MailConfigView};
use vstd::prelude::*;
use vstd::string::*;

verus! {

/// The value of one attribute of a row: a string, or a number as its decimal
/// numeral. The rows of this library hold no other kind; where a row that is
/// read has one, it shows as `Other`.
#[derive(Clone, Debug, PartialEq, Eq)]
pub enum AttributeValue {
    S(String),
    N(String),
    Other,
}

/// One named attribute of a row.
#[derive(Clone, Debug, PartialEq, Eq)]
pub struct Attribute {
    pub name: String,
    pub value: AttributeValue,
}

/// The request that upserts a row: the row replaces whatever the table holds
/// under the same key.
#[derive(Clone, Debug, PartialEq, Eq)]
pub struct PutItem {
    pub table_name: String,
    pub item: Vec<Attribute>,
}

/// The request that updates the row under `key` in place, in one atomic
/// step.
#[derive(Clone, Debug, PartialEq, Eq)]
pub struct UpdateItem {
    pub table_name: String,
    pub key: Vec<Attribute>,
    pub update_expression: String,
    pub expression_attribute_values: Vec<Attribute>,
}

/// The request for one object of the object store.
#[derive(Clone, Debug, PartialEq, Eq)]
pub struct GetObject {
    pub bucket: String,
    pub key: String,
}

/// A request to one of the stores.
#[derive(Clone, Debug, PartialEq, Eq)]
pub enum Request {
    GetObject(GetObject),
    UpdateItem(UpdateItem),
    PutItem(PutItem),
}

/// An attribute value, as a value of the model.
pub enum AttributeValueView {
    S(Seq<char>),
    N(Seq<char>),
    Other,
}

/// An attribute, as a value of the model.
pub struct AttributeView {
    pub name: Seq<char>,
    pub value: AttributeValueView,
}

/// An upsert request, as a value of the model.
pub struct PutItemView {
    pub table_name: Seq<char>,
    pub item: Seq<AttributeView>,
}

/// An update request, as a value of the model.
pub struct UpdateItemView {
    pub table_name: Seq<char>,
    pub key: Seq<AttributeView>,
    pub update_expression: Seq<char>,
    pub expression_attribute_values: Seq<AttributeView>,
}

/// An object request, as a value of the model.
pub struct GetObjectView {
    pub bucket: Seq<char>,
    pub key: Seq<char>,
}

/// A request, as a value of the model.
pub enum RequestView {
    GetObject(GetObjectView),
    UpdateItem(UpdateItemView),
    PutItem(PutItemView),
}

impl View for AttributeValue {
    type V = AttributeValueView;

    open spec fn view(&self) -> AttributeValueView {
        match *self {
            AttributeValue::S(text) => AttributeValueView::S(text@),
            AttributeValue::N(numeral) => AttributeValueView::N(numeral@),
            AttributeValue::Other => AttributeValueView::Other,
        }
    }
}

impl View for Attribute {
    type V = AttributeView;

    open spec fn view(&self) -> AttributeView {
        AttributeView { name: self.name@, value: self.value@ }
    }
}

/// The views of a run of attributes.
pub open spec fn attribute_views(attributes: Seq<Attribute>) -> Seq<AttributeView> {
    Seq::new(attributes.len(), |i: int| attributes[i]@)
}

impl View for PutItem {
    type V = PutItemView;

    open spec fn view(&self) -> PutItemView {
        PutItemView { table_name: self.table_name@, item: attribute_views(self.item@) }
    }
}

impl View for UpdateItem {
    type V = UpdateItemView;

    open spec fn view(&self) -> UpdateItemView {
        UpdateItemView {
            table_name: self.table_name@,
            key: attribute_views(self.key@),
            update_expression: self.update_expression@,
            expression_attribute_values: attribute_views(self.expression_attribute_values@),
        }
    }
}

impl View for GetObject {
    type V = GetObjectView;

    open spec fn view(&self) -> GetObjectView {
        GetObjectView { bucket: self.bucket@, key: self.key@ }
    }
}

impl View for Request {
    type V = RequestView;

    open spec fn view(&self) -> RequestView {
        match *self {
            Request::GetObject(get) => RequestView::GetObject(get@),
            Request::UpdateItem(update) => RequestView::UpdateItem(update@),
            Request::PutItem(put) => RequestView::PutItem(put@),
        }
    }
}

/// A string attribute.
pub open spec fn text_attribute(name: Seq<char>, text: Seq<char>) -> AttributeView {
    AttributeView { name, value: AttributeValueView::S(text) }
}

/// A number attribute.
pub open spec fn number_attribute(name: Seq<char>, number: int) -> AttributeView {
    AttributeView { name, value: AttributeValueView::N(decimal(number)) }
}

/// How many digits the time takes in a sort key.
pub const TIME_DIGITS: usize = 20;

/// The sign that parts the time from the message identifier in a sort key.
pub const KEY_SEPARATOR: char = '#';

/// How far the time `received_at` lies after the earliest time that there
/// is.
pub open spec fn time_offset(received_at: i64) -> nat {
    (received_at - i64::MIN) as nat
}

/// The sort key of a record: the offset of its time in twenty digits, the
/// separator, and its message identifier. Within one recipient, sort keys
/// order the records by time, and tell apart two messages of one second.
pub open spec fn sort_key(received_at: i64, message_id: Seq<char>) -> Seq<char> {
    fixed_digits(time_offset(received_at), TIME_DIGITS as nat) + seq![KEY_SEPARATOR] + message_id
}

/// The row of a record. Its key attributes, `pk` and `sk`, hold the key of
/// the record: the recipient, and the time with the message identifier.
/// The other attributes hold its fields.
pub open spec fn record_item(record: MailView) -> Seq<AttributeView> {
    seq![
        text_attribute("pk"@, record.key.recipient),
        text_attribute("sk"@, sort_key(record.key.received_at, record.key.message_id)),
        text_attribute("subject"@, record.fields.subject),
        text_attribute("first_sentence"@, record.fields.first_sentence),
        number_attribute("schema_version"@, record.fields.schema_version as int),
    ]
}

/// The upsert of a record into the table `table`.
pub open spec fn put_of(record: MailView, table: Seq<char>) -> PutItemView {
    PutItemView { table_name: table, item: record_item(record) }
}

/// The key of the counter row of the recipient `user`.
pub open spec fn counter_key(user: Seq<char>) -> Seq<AttributeView> {
    seq![text_attribute("pk"@, "USER"@), text_attribute("sk"@, user)]
}

/// The update that counts one more message for the recipient `user`: a
/// single unconditional numeric add of one, which the store applies
/// atomically and which starts a missing counter at zero.
pub open spec fn count_of(user: Seq<char>, table: Seq<char>) -> UpdateItemView {
    UpdateItemView {
        table_name: table,
        key: counter_key(user),
        update_expression: "ADD message_count :one"@,
        expression_attribute_values: seq![number_attribute(":one"@, 1)],
    }
}

/// The request that performs `command` on the stores that `config` names.
pub open spec fn request_of(command: CommandView, config: MailConfigView) -> RequestView {
    match command {
        CommandView::FetchContent { message_id } => RequestView::GetObject(
            GetObjectView { bucket: config.mail_bucket, key: message_id },
        ),
        CommandView::CountMessage { recipient } => RequestView::UpdateItem(
            count_of(recipient, config.user_db),
        ),
        CommandView::WriteRecord { record } => RequestView::PutItem(put_of(record, config.mail_db)),
    }
}

fn text_attr(name: &str, text: &String) -> (attribute: Attribute)
    ensures
        attribute@ == text_attribute(name@, text@),
{
    Attribute { name: String::from_str(name), value: AttributeValue::S(text.clone()) }
}

fn number_attr(name: &str, number: i64) -> (attribute: Attribute)
    ensures
        attribute@ == number_attribute(name@, number as int),
{
    Attribute { name: String::from_str(name), value: AttributeValue::N(format_decimal(number)) }
}

/// Writes the sort key of a record.
pub fn sort_key_of(received_at: i64, message_id: &String) -> (key: String)
    ensures
        key@ == sort_key(received_at, message_id@),
{
    let offset: u64 = (received_at as i128 + 0x8000_0000_0000_0000) as u64;
    let mut key = format_fixed(offset, TIME_DIGITS);
    proof {
        reveal_strlit("#");
        assert("#"@ =~= seq![KEY_SEPARATOR]);
    }
    key.append("#");
    key.append(message_id.as_str());
    key
}

/// Builds the request that persists `item` in the ledger table `table`: an
/// upsert of the whole row under the key of the record.
pub fn add_item(item: &Mail, table: &String) -> (put: PutItem)
    ensures
        put@ == put_of(item@, table@),
{
    let mut row: Vec<Attribute> = Vec::new();
    row.push(text_attr("pk", &item.pk));
    row.push(text_attr("sk", &sort_key_of(item.sk, &item.message_id)));
    row.push(text_attr("subject", &item.subject));
    row.push(text_attr("first_sentence", &item.first_sentence));
    row.push(number_attr("schema_version", item.schema_version as i64));
    assert(attribute_views(row@) =~= record_item(item@));
    PutItem { table_name: table.clone(), item: row }
}

/// Within one recipient the ledger sorts by time: the sort key of an
/// earlier record comes before that of a later one, whatever their message
/// identifiers.
pub proof fn lemma_sort_keys_order_by_time(
    earlier: i64,
    later: i64,
    one: Seq<char>,
    other: Seq<char>,
)
    requires
        earlier < later,
    ensures
        comes_before(sort_key(earlier, one), sort_key(later, other)),
{
    let width = TIME_DIGITS as nat;
    let a = fixed_digits(time_offset(earlier), width);
    let b = fixed_digits(time_offset(later), width);
    assert(pow10(width) > u64::MAX) by {
        reveal_with_fuel(pow10, 21);
    }
    lemma_fixed_digits(time_offset(earlier), width);
    lemma_fixed_digits(time_offset(later), width);
    lemma_fixed_digits_order(time_offset(earlier), time_offset(later), width);
    let i = choose|i: int|
        0 <= i < a.len() && i < b.len() && #[trigger] a.take(i) == b.take(i) && (a[i] as u32) < (
        b[i] as u32);
    let x = sort_key(earlier, one);
    let y = sort_key(later, other);
    assert(x.take(i) =~= a.take(i));
    assert(y.take(i) =~= b.take(i));
    assert(x[i] == a[i] && y[i] == b[i]);
}

/// Builds the request that counts one more message for `user` in the
/// counter table `table`. It is one atomic add: the store creates the
/// counter with one where the recipient has none, and adds one to it
/// otherwise, whatever other requests run beside it.
pub fn add_user_if_not_exist(user: &String, table: &String) -> (update: UpdateItem)
    ensures
        update@ == count_of(user@, table@),
{
    let mut key: Vec<Attribute> = Vec::new();
    key.push(text_attr("pk", &String::from_str("USER")));
    key.push(text_attr("sk", user));
    let mut values: Vec<Attribute> = Vec::new();
    values.push(number_attr(":one", 1));
    assert(attribute_views(key@) =~= counter_key(user@));
    assert(attribute_views(values@) =~= seq![number_attribute(":one"@, 1)]);
    UpdateItem {
        table_name: table.clone(),
        key,
        update_expression: String::from_str("ADD message_count :one"),
        expression_attribute_values: values,
    }
}

/// Turns a command of the orchestrator into the request that performs it.
pub fn request_for(command: &Command, config: &MailConfig) -> (request: Request)
    ensures
        request@ == request_of(command@, config@),
{
    match command {
        Command::FetchContent { message_id } => Request::GetObject(
            GetObject { bucket: config.mail_bucket.clone(), key: message_id.clone() },
        ),
        Command::CountMessage { recipient } => Request::UpdateItem(
            add_user_if_not_exist(recipient, &config.user_db),
        ),
        Command::WriteRecord { record } => Request::PutItem(add_item(record, &config.mail_db)),
    }
}

/// How many rows a query asks for at most.
pub const PAGE_LIMIT: i32 = 20;

/// The request for the rows of one partition of a table.
#[derive(Clone, Debug, PartialEq, Eq)]
pub struct Query {
    pub table_name: String,
    pub key_condition_expression: String,
    pub projection_expression: String,
    pub expression_attribute_values: Vec<Attribute>,
    /// Whether the rows come in rising order of their sort key.
    pub scan_index_forward: bool,
    pub limit: i32,
}

/// A query, as a value of the model.
pub struct QueryView {
    pub table_name: Seq<char>,
    pub key_condition_expression: Seq<char>,
    pub projection_expression: Seq<char>,
    pub expression_attribute_values: Seq<AttributeView>,
    pub scan_index_forward: bool,
    pub limit: i32,
}

impl View for Query {
    type V = QueryView;

    open spec fn view(&self) -> QueryView {
        QueryView {
            table_name: self.table_name@,
            key_condition_expression: self.key_condition_expression@,
            projection_expression: self.projection_expression@,
            expression_attribute_values: attribute_views(self.expression_attribute_values@),
            scan_index_forward: self.scan_index_forward,
            limit: self.limit,
        }
    }
}

/// The query for the records of the recipient `email`: the latest first,
/// one page of them.
pub open spec fn emails_query_of(table: Seq<char>, email: Seq<char>) -> QueryView {
    QueryView {
        table_name: table,
        key_condition_expression: "pk = :pk"@,
        projection_expression: "pk, sk, subject, first_sentence, schema_version"@,
        expression_attribute_values: seq![text_attribute(":pk"@, email)],
        scan_index_forward: false,
        limit: PAGE_LIMIT,
    }
}

/// The query for the counter rows: one page of them.
pub open spec fn users_query_of(table: Seq<char>) -> QueryView {
    QueryView {
        table_name: table,
        key_condition_expression: "pk = :pk"@,
        projection_expression: "pk, sk, message_count"@,
        expression_attribute_values: seq![text_attribute(":pk"@, "USER"@)],
        scan_index_forward: true,
        limit: PAGE_LIMIT,
    }
}

/// Builds the query for the records of the recipient `email` in the ledger
/// table `table`.
pub fn emails_query(table: &String, email: &String) -> (query: Query)
    ensures
        query@ == emails_query_of(table@, email@),
{
    let mut values: Vec<Attribute> = Vec::new();
    values.push(text_attr(":pk", email));
    assert(attribute_views(values@) =~= seq![text_attribute(":pk"@, email@)]);
    Query {
        table_name: table.clone(),
        key_condition_expression: String::from_str("pk = :pk"),
        projection_expression: String::from_str(
            "pk, sk, subject, first_sentence, schema_version",
        ),
        expression_attribute_values: values,
        scan_index_forward: false,
        limit: PAGE_LIMIT,
    }
}

/// Builds the query for the counter rows in the counter table `table`.
pub fn users_query(table: &String) -> (query: Query)
    ensures
        query@ == users_query_of(table@),
{
    let mut values: Vec<Attribute> = Vec::new();
    values.push(text_attr(":pk", &String::from_str("USER")));
    assert(attribute_views(values@) =~= seq![text_attribute(":pk"@, "USER"@)]);
    Query {
        table_name: table.clone(),
        key_condition_expression: String::from_str("pk = :pk"),
        projection_expression: String::from_str("pk, sk, message_count"),
        expression_attribute_values: values,
        scan_index_forward: true,
        limit: PAGE_LIMIT,
    }
}

} // verus!
