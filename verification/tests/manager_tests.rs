use ironmq::exchange::{Exchange, ExchangeType, Exchanges};
use ironmq::{ClientError, ErrorScope};
use ironmq::exchange::topic_key_match;
use ironmq::exchange::headers_match_exec;
use ironmq::value::{TableEntry, TableValue};

fn plain_exchange(name: &[u8], etype: ExchangeType) -> Exchange {
    Exchange {
        name: name.to_vec(),
        etype,
        durable: false,
        auto_delete: false,
        internal: false,
        bindings: Vec::new(),
    }
}

#[test]
fn passive_declare_exchange_does_not_exists_channel_error() {
    let mut exchanges = Exchanges::new();

    let result = exchanges.declare(plain_exchange(b"new exchange", ExchangeType::Fanout), true);

    assert!(result.is_err());
    let err = result.unwrap_err();
    assert_eq!(err.code, 404);
}

#[test]
fn declare_exchange_exists_fields_different_error() {
    let mut exchanges = Exchanges::new();

    let first = exchanges.declare(plain_exchange(b"orders", ExchangeType::Fanout), false);
    assert!(first.is_ok());

    let result = exchanges.declare(plain_exchange(b"orders", ExchangeType::Topic), false);

    assert!(result.is_err());

    let err = result.unwrap_err();
    assert_eq!(err.scope, ErrorScope::Channel);
    assert_eq!(err.code, 406);
}

#[test]
fn declare_exchange_does_not_exist_created() {
    let mut exchanges = Exchanges::new();
    let mut ex = plain_exchange(b"orders", ExchangeType::Direct);
    ex.durable = true;
    ex.auto_delete = true;

    let result = exchanges.declare(ex, false);

    assert!(result.is_ok());

    let i = exchanges.lookup(b"orders").unwrap();
    let exchange = &exchanges.list[i];
    assert_eq!(exchange.name, b"orders".to_vec());
    assert_eq!(exchange.durable, true);
    assert_eq!(exchange.auto_delete, true);
    assert_eq!(exchange.internal, false);
}

#[test]
fn declare_exchange_identical_twice_succeeds() {
    let mut exchanges = Exchanges::new();

    assert!(exchanges.declare(plain_exchange(b"logs", ExchangeType::Fanout), false).is_ok());
    assert!(exchanges.declare(plain_exchange(b"logs", ExchangeType::Fanout), false).is_ok());
    assert!(exchanges.declare(plain_exchange(b"logs", ExchangeType::Fanout), true).is_ok());
}

#[test]
fn send_client_error() {
    let res: Result<(), ClientError> = Err(ClientError {
        channel: None,
        code: 404,
        message: "Not found".to_string(),
        class_method: 0,
    });

    assert!(res.is_err());

    let err = res.unwrap_err();
    assert_eq!(err.channel, None);
    assert_eq!(err.code, 404);
    assert_eq!(err.message, "Not found".to_string());
    assert_eq!(err.class_method, 0);
}

#[test]
fn topic_patterns() {

    assert!(topic_key_match(&b"a.*.c".to_vec(), &b"a.b.c".to_vec()));
    assert!(!topic_key_match(&b"a.*.c".to_vec(), &b"a.b.d".to_vec()));
    assert!(!topic_key_match(&b"a.*.c".to_vec(), &b"a.c".to_vec()));
    assert!(topic_key_match(&b"#".to_vec(), &b"x.y.z".to_vec()));
    assert!(topic_key_match(&b"a.#".to_vec(), &b"a".to_vec()));
    assert!(topic_key_match(&b"a.#".to_vec(), &b"a.b.c".to_vec()));
    assert!(topic_key_match(&b"#.c".to_vec(), &b"a.b.c".to_vec()));
    assert!(topic_key_match(&b"a.b".to_vec(), &b"a.b".to_vec()));
    assert!(!topic_key_match(&b"a.b".to_vec(), &b"a".to_vec()));
}

#[test]
fn headers_matching() {

    let binding_all = vec![
        TableEntry { key: b"format".to_vec(), value: TableValue::SimpleString(b"pdf".to_vec()) },
        TableEntry { key: b"kind".to_vec(), value: TableValue::SimpleString(b"report".to_vec()) },
    ];
    let binding_any = vec![
        TableEntry { key: b"format".to_vec(), value: TableValue::SimpleString(b"pdf".to_vec()) },
        TableEntry { key: b"kind".to_vec(), value: TableValue::SimpleString(b"report".to_vec()) },
        TableEntry { key: b"x-match".to_vec(), value: TableValue::SimpleString(b"any".to_vec()) },
    ];

    let hdrs_one = vec![TableEntry {
        key: b"format".to_vec(),
        value: TableValue::SimpleString(b"pdf".to_vec()),
    }];
    let hdrs_both = vec![
        TableEntry { key: b"format".to_vec(), value: TableValue::SimpleString(b"pdf".to_vec()) },
        TableEntry { key: b"kind".to_vec(), value: TableValue::SimpleString(b"report".to_vec()) },
    ];

    assert!(!headers_match_exec(&binding_all, &hdrs_one));
    assert!(headers_match_exec(&binding_all, &hdrs_both));
    assert!(headers_match_exec(&binding_any, &hdrs_one));
    assert!(headers_match_exec(&binding_any, &hdrs_both));
    assert!(!headers_match_exec(&binding_any, &Vec::new()));
}
