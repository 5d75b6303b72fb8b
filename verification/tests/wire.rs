use supermailer::api_types::{ListEmailsResponse, ListUsersResponse, User};
use supermailer::orchestrator::Command;
use supermailer::record::Mail;
use supermailer::rows::{
    decode_mail, decode_user, find, list_emails, list_users, read_sort_key, DecodeError,
};
use supermailer::state::MailConfig;
use supermailer::wire::{
    add_item, add_user_if_not_exist, emails_query, request_for, sort_key_of, users_query,
    Attribute, AttributeValue, GetObject, PutItem, Query, Request, UpdateItem,
};

fn s(name: &str, text: &str) -> Attribute {
    Attribute { name: name.to_string(), value: AttributeValue::S(text.to_string()) }
}

fn n(name: &str, numeral: &str) -> Attribute {
    Attribute { name: name.to_string(), value: AttributeValue::N(numeral.to_string()) }
}

fn mail() -> Mail {
    Mail {
        pk: "web@example.com".to_string(),
        sk: 1700000000,
        message_id: "m-1".to_string(),
        subject: "Hi".to_string(),
        first_sentence: "HelloWorldFoo".to_string(),
        schema_version: 1,
    }
}

fn config() -> MailConfig {
    MailConfig {
        mail_bucket: "bucket".to_string(),
        mail_db: "mails".to_string(),
        user_db: "users".to_string(),
    }
}

#[test]
fn add_item_writes_the_whole_row() {
    assert_eq!(
        add_item(&mail(), &"mails".to_string()),
        PutItem {
            table_name: "mails".to_string(),
            item: vec![
                s("pk", "web@example.com"),
                s("sk", "09223372038554775808#m-1"),
                s("subject", "Hi"),
                s("first_sentence", "HelloWorldFoo"),
                n("schema_version", "1"),
            ],
        }
    );
}

#[test]
fn add_item_writes_an_empty_preview_as_such() {
    let mut record = mail();
    record.first_sentence = String::new();
    record.sk = -12;
    let put = add_item(&record, &"t".to_string());
    assert_eq!(put.item[3], s("first_sentence", ""));
    assert_eq!(put.item[1], s("sk", "09223372036854775796#m-1"));
}

#[test]
fn add_user_is_a_single_atomic_add() {
    assert_eq!(
        add_user_if_not_exist(&"web@example.com".to_string(), &"users".to_string()),
        UpdateItem {
            table_name: "users".to_string(),
            key: vec![s("pk", "USER"), s("sk", "web@example.com")],
            update_expression: "ADD message_count :one".to_string(),
            expression_attribute_values: vec![n(":one", "1")],
        }
    );
}

#[test]
fn request_for_routes_each_command_to_its_store() {
    let fetch = Command::FetchContent { message_id: "m-1".to_string() };
    assert_eq!(
        request_for(&fetch, &config()),
        Request::GetObject(GetObject { bucket: "bucket".to_string(), key: "m-1".to_string() })
    );
    let count = Command::CountMessage { recipient: "a@example.com".to_string() };
    assert_eq!(
        request_for(&count, &config()),
        Request::UpdateItem(add_user_if_not_exist(&"a@example.com".to_string(), &"users".to_string()))
    );
    let write = Command::WriteRecord { record: mail() };
    assert_eq!(request_for(&write, &config()), Request::PutItem(add_item(&mail(), &"mails".to_string())));
}

#[test]
fn queries_ask_for_one_page_of_one_partition() {
    assert_eq!(
        emails_query(&"mails".to_string(), &"web@example.com".to_string()),
        Query {
            table_name: "mails".to_string(),
            key_condition_expression: "pk = :pk".to_string(),
            projection_expression: "pk, sk, subject, first_sentence, schema_version".to_string(),
            expression_attribute_values: vec![s(":pk", "web@example.com")],
            scan_index_forward: false,
            limit: 20,
        }
    );
    assert_eq!(
        users_query(&"users".to_string()),
        Query {
            table_name: "users".to_string(),
            key_condition_expression: "pk = :pk".to_string(),
            projection_expression: "pk, sk, message_count".to_string(),
            expression_attribute_values: vec![s(":pk", "USER")],
            scan_index_forward: true,
            limit: 20,
        }
    );
}

#[test]
fn a_written_row_reads_back_as_the_record() {
    let records = [
        mail(),
        Mail { pk: String::new(), sk: i64::MIN, message_id: String::new(), subject: String::new(), first_sentence: String::new(), schema_version: u32::MAX },
        Mail { pk: "x".to_string(), sk: i64::MAX, message_id: "y".to_string(), subject: "z".to_string(), first_sentence: "w".to_string(), schema_version: 0 },
    ];
    for record in records {
        let put = add_item(&record, &"t".to_string());
        assert_eq!(decode_mail(&put.item), Ok(record));
    }
}

#[test]
fn a_row_reads_the_same_in_any_order() {
    let mut row = add_item(&mail(), &"t".to_string()).item;
    row.reverse();
    assert_eq!(decode_mail(&row), Ok(mail()));
    row.rotate_left(2);
    assert_eq!(decode_mail(&row), Ok(mail()));
}

#[test]
fn a_row_without_preview_and_version_reads_with_empty_preview_and_version_zero() {
    let row = vec![s("pk", "a@example.com"), s("sk", "09223372036854775813#m"), s("subject", "old")];
    assert_eq!(
        decode_mail(&row),
        Ok(Mail {
            pk: "a@example.com".to_string(),
            sk: 5,
            message_id: "m".to_string(),
            subject: "old".to_string(),
            first_sentence: String::new(),
            schema_version: 0,
        })
    );
}

#[test]
fn decode_mail_names_the_attribute_in_the_way() {
    let full = add_item(&mail(), &"t".to_string()).item;
    let without = |name: &str| -> Vec<Attribute> { full.iter().filter(|a| a.name != name).cloned().collect() };
    let with = |a: Attribute| -> Vec<Attribute> {
        let mut row = without(&a.name);
        row.push(a);
        row
    };
    assert_eq!(decode_mail(&without("pk")), Err(DecodeError::Pk));
    assert_eq!(decode_mail(&with(n("pk", "1"))), Err(DecodeError::Pk));
    assert_eq!(decode_mail(&without("sk")), Err(DecodeError::Sk));
    assert_eq!(decode_mail(&with(n("sk", "5"))), Err(DecodeError::Sk));
    assert_eq!(decode_mail(&with(s("sk", "5#m"))), Err(DecodeError::Sk));
    assert_eq!(decode_mail(&with(s("sk", "09223372036854775813"))), Err(DecodeError::Sk));
    assert_eq!(decode_mail(&with(s("sk", "09223372036854775813m"))), Err(DecodeError::Sk));
    assert_eq!(decode_mail(&with(s("sk", "0922337203685477581x#m"))), Err(DecodeError::Sk));
    assert_eq!(decode_mail(&with(s("sk", "18446744073709551616#m"))), Err(DecodeError::Sk));
    assert_eq!(decode_mail(&without("subject")), Err(DecodeError::Subject));
    assert_eq!(decode_mail(&with(n("first_sentence", "1"))), Err(DecodeError::FirstSentence));
    assert_eq!(decode_mail(&with(s("schema_version", "1"))), Err(DecodeError::SchemaVersion));
    assert_eq!(decode_mail(&with(n("schema_version", "-1"))), Err(DecodeError::SchemaVersion));
    assert_eq!(decode_mail(&with(n("schema_version", "4294967296"))), Err(DecodeError::SchemaVersion));
    assert_eq!(decode_mail(&Vec::new()), Err(DecodeError::Pk));
}

#[test]
fn sort_keys_hold_time_and_message_identifier() {
    assert_eq!(sort_key_of(0, &"m".to_string()), "09223372036854775808#m");
    assert_eq!(sort_key_of(i64::MIN, &String::new()), "00000000000000000000#");
    assert_eq!(sort_key_of(i64::MAX, &"a#b".to_string()), "18446744073709551615#a#b");
    assert_eq!(read_sort_key("09223372036854775808#m"), Some((0, "m".to_string())));
    assert_eq!(read_sort_key("00000000000000000000#"), Some((i64::MIN, String::new())));
    assert_eq!(read_sort_key("18446744073709551615#a#b"), Some((i64::MAX, "a#b".to_string())));
    assert_eq!(read_sort_key(""), None);
    assert_eq!(read_sort_key("#m"), None);
    assert_eq!(read_sort_key("99999999999999999999#m"), None);
}

#[test]
fn sort_keys_read_back() {
    let times = [i64::MIN, -1700000000, -1, 0, 1, 59, 1700000000, i64::MAX];
    let ids = ["", "m-1", "#", "0123456789", "caf\u{e9}"];
    for t in times {
        for id in ids {
            let key = sort_key_of(t, &id.to_string());
            assert_eq!(read_sort_key(&key), Some((t, id.to_string())));
        }
    }
}

#[test]
fn sort_keys_order_by_time_then_tell_messages_apart() {
    let times = [i64::MIN, -1700000000, -10, -9, -1, 0, 1, 9, 10, 99, 100, 1700000000, i64::MAX];
    for pair in times.windows(2) {
        let earlier = sort_key_of(pair[0], &"zzz".to_string());
        let later = sort_key_of(pair[1], &"".to_string());
        assert!(earlier < later, "{} {}", earlier, later);
        assert!(earlier.as_bytes() < later.as_bytes());
    }
    assert_ne!(sort_key_of(5, &"m-1".to_string()), sort_key_of(5, &"m-2".to_string()));
}

#[test]
fn two_messages_of_one_second_have_different_key_attributes() {
    let mut other = mail();
    other.message_id = "m-2".to_string();
    let one = add_item(&mail(), &"t".to_string()).item;
    let two = add_item(&other, &"t".to_string()).item;
    assert_eq!(one[0], two[0]);
    assert_ne!(one[1], two[1]);
    assert_eq!(decode_mail(&one).unwrap().message_id, "m-1");
    assert_eq!(decode_mail(&two).unwrap().message_id, "m-2");
}

#[test]
fn find_takes_the_last_attribute_of_a_name() {
    let row = vec![s("a", "1"), s("b", "2"), s("a", "3")];
    assert_eq!(find(&row, "a"), Some(&AttributeValue::S("3".to_string())));
    assert_eq!(find(&row, "b"), Some(&AttributeValue::S("2".to_string())));
    assert_eq!(find(&row, "c"), None);
}

#[test]
fn decode_user_reads_a_counter_row() {
    let row = vec![s("pk", "USER"), s("sk", "web@example.com"), n("message_count", "50")];
    assert_eq!(
        decode_user(&row),
        Ok(User { pk: "USER".to_string(), sk: "web@example.com".to_string(), message_count: 50 })
    );
    assert_eq!(decode_user(&vec![s("sk", "a"), n("message_count", "1")]), Err(DecodeError::Pk));
    assert_eq!(decode_user(&vec![s("pk", "USER"), n("message_count", "1")]), Err(DecodeError::Sk));
    assert_eq!(decode_user(&vec![s("pk", "USER"), s("sk", "a")]), Err(DecodeError::MessageCount));
    assert_eq!(
        decode_user(&vec![s("pk", "USER"), s("sk", "a"), n("message_count", "many")]),
        Err(DecodeError::MessageCount)
    );
}

#[test]
fn list_users_reads_all_rows_in_order() {
    let rows = vec![
        vec![s("pk", "USER"), s("sk", "a@example.com"), n("message_count", "1")],
        vec![s("pk", "USER"), s("sk", "b@example.com"), n("message_count", "2")],
    ];
    assert_eq!(
        list_users(&rows),
        Ok(ListUsersResponse {
            data: vec![
                User { pk: "USER".to_string(), sk: "a@example.com".to_string(), message_count: 1 },
                User { pk: "USER".to_string(), sk: "b@example.com".to_string(), message_count: 2 },
            ],
        })
    );
    assert_eq!(list_users(&Vec::new()), Ok(ListUsersResponse { data: Vec::new() }));
}

#[test]
fn list_users_fails_on_the_first_bad_row() {
    let rows = vec![
        vec![s("pk", "USER"), s("sk", "a@example.com"), n("message_count", "1")],
        vec![s("pk", "USER"), s("sk", "b@example.com")],
        vec![s("sk", "c@example.com")],
    ];
    assert_eq!(list_users(&rows), Err(DecodeError::MessageCount));
}

#[test]
fn list_emails_reads_all_rows_in_order() {
    let mut second = mail();
    second.sk = 2;
    second.message_id = "m-2".to_string();
    let rows = vec![add_item(&mail(), &"t".to_string()).item, add_item(&second, &"t".to_string()).item];
    assert_eq!(list_emails(&rows), Ok(ListEmailsResponse { data: vec![mail(), second] }));
}

#[test]
fn list_emails_fails_on_the_first_bad_row() {
    let rows = vec![add_item(&mail(), &"t".to_string()).item, vec![s("pk", "a")], Vec::new()];
    assert_eq!(list_emails(&rows), Err(DecodeError::Sk));
}

#[test]
fn an_attribute_of_another_kind_is_no_string_and_no_number() {
    let full = add_item(&mail(), &"t".to_string()).item;
    let with = |name: &str| -> Vec<Attribute> {
        let mut row: Vec<Attribute> = full.iter().filter(|a| a.name != name).cloned().collect();
        row.push(Attribute { name: name.to_string(), value: AttributeValue::Other });
        row
    };
    assert_eq!(decode_mail(&with("pk")), Err(DecodeError::Pk));
    assert_eq!(decode_mail(&with("sk")), Err(DecodeError::Sk));
    assert_eq!(decode_mail(&with("subject")), Err(DecodeError::Subject));
    assert_eq!(decode_mail(&with("first_sentence")), Err(DecodeError::FirstSentence));
    assert_eq!(decode_mail(&with("schema_version")), Err(DecodeError::SchemaVersion));
    assert_eq!(decode_mail(&with("raw")), Ok(mail()));
    assert_eq!(
        decode_user(&vec![s("pk", "USER"), s("sk", "a"), Attribute { name: "message_count".to_string(), value: AttributeValue::Other }]),
        Err(DecodeError::MessageCount)
    );
}
