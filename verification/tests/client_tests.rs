use arweave_tx_client::client::{
    interpret_price_response, interpret_status_response, interpret_tx_response,
    TransactionInfoClient,
};
use arweave_tx_client::codec::{encode_status_response, encode_transaction_data};
use arweave_tx_client::error::ArweaveError;
use arweave_tx_client::model::{
    Tag, TransactionConfirmedData, TransactionData, TransactionStatusResponse,
};

fn tx_fixture() -> TransactionData {
    TransactionData {
        format: 2,
        id: "arweave_tx_id".to_string(),
        last_tx: "last_tx".to_string(),
        owner: "owner".to_string(),
        tags: vec![Tag { name: "name".to_string(), value: "value".to_string() }],
        target: "target".to_string(),
        quantity: "quantity".to_string(),
        data: vec![],
        reward: "reward".to_string(),
        signature: "signature".to_owned(),
        data_size: "data_size".to_string(),
        data_root: "data_root".to_owned(),
    }
}

#[test]
fn test_price() {
    let byte_size = "156";
    let client = TransactionInfoClient::new("http://localhost".to_string());
    assert_eq!(client.price_url(byte_size), format!("http://localhost/price/{}", byte_size));
    let tx_info = interpret_price_response(200, "123123").unwrap();
    assert_eq!(tx_info, "123123".to_string());
}

#[test]
fn test_get() {
    let id = "arweave_tx_id";
    let tx_info_mock = tx_fixture();
    let body = encode_transaction_data(&tx_info_mock);
    let client = TransactionInfoClient::new("http://localhost".to_string());
    assert_eq!(client.tx_url(id), format!("http://localhost/tx/{}", id));
    let tx_info = interpret_tx_response(200, &body).unwrap();
    assert_eq!(tx_info.id, "arweave_tx_id");
    assert_eq!(tx_info, tx_info_mock);
}

#[test]
fn test_get_status() {
    let id = "arweave_tx_id";
    let tx_data_mock = TransactionConfirmedData {
        block_indep_hash: "block_indep_hash".to_string(),
        block_height: 10,
        number_of_confirmations: 10,
    };
    let tx_status_mock = TransactionStatusResponse { status: 1, confirmed: Some(tx_data_mock) };
    let body = encode_status_response(&tx_status_mock);
    let client = TransactionInfoClient::new("http://localhost".to_string());
    assert_eq!(client.tx_status_url(id), format!("http://localhost/tx/{}/status", id));
    let tx_info = interpret_status_response(200, &body).unwrap();
    assert_eq!(tx_info.status, 1);
    assert_eq!(tx_info, tx_status_mock);
}

#[test]
fn status_fixture_decodes_field_for_field() {
    let body = "{\"status\": 1, \"confirmed\": {\"block_height\": 10, \
                \"number_of_confirmations\": 10, \"block_indep_hash\": \"h\"}}";
    let st = interpret_status_response(200, body).unwrap();
    assert_eq!(st.status, 1);
    let conf = st.confirmed.unwrap();
    assert_eq!(conf.block_height, 10);
    assert_eq!(conf.number_of_confirmations, 10);
    assert_eq!(conf.block_indep_hash, "h");
}

#[test]
fn status_without_confirmed_is_pending() {
    let st = interpret_status_response(200, "{\"status\": 202}").unwrap();
    assert_eq!(st.status, 202);
    assert!(st.confirmed.is_none());
    let st2 = interpret_status_response(200, "{\"status\": 202, \"confirmed\": null}").unwrap();
    assert_eq!(st2.confirmed, None);
}

#[test]
fn server_error_envelope_yields_protocol_error() {
    let body = "{\"status\": 400, \"error\": \"Not Found\"}";
    let r = interpret_tx_response(200, body);
    match r {
        Err(ArweaveError::ProtocolError { payload }) => assert_eq!(payload, body),
        other => panic!("expected a protocol error, got {:?}", other),
    }
    let r2 = interpret_status_response(200, "{\"error\": \"pending\"}");
    assert!(matches!(r2, Err(ArweaveError::ProtocolError { .. })));
}

#[test]
fn non_success_status_yields_transport_error() {
    let r = interpret_price_response(404, "irrelevant");
    match r {
        Err(ArweaveError::TransportError { message }) => {
            assert_eq!(message, "unexpected HTTP status 404");
        },
        other => panic!("expected a transport error, got {:?}", other),
    }
    assert!(matches!(
        interpret_tx_response(500, "{}"),
        Err(ArweaveError::TransportError { .. })
    ));
    assert!(matches!(
        interpret_status_response(301, "{}"),
        Err(ArweaveError::TransportError { .. })
    ));
}

#[test]
fn malformed_bodies_yield_malformed_response() {
    let r = interpret_tx_response(200, "not json at all");
    match r {
        Err(ArweaveError::MalformedResponse { body }) => assert_eq!(body, "not json at all"),
        other => panic!("expected a malformed-response error, got {:?}", other),
    }
    // a well-formed body that is not an object matches neither schema
    assert!(matches!(
        interpret_status_response(200, "123"),
        Err(ArweaveError::MalformedResponse { .. })
    ));
}

#[test]
fn tx_decode_reencode_decode_is_idempotent() {
    // a fixture with whitespace, reordered members, an unknown member,
    // escapes in a string and non-empty data bytes
    let body = "  {\"id\": \"tx\\n1\", \"format\": 1, \"last_tx\": \"\", \"owner\": \"o\",\n \
                \"extra\": [1, 2], \"target\": \"t\", \"quantity\": \"0\", \
                \"data\": [0, 255, 7], \"reward\": \"1\", \"signature\": \"s\\\\x\", \
                \"data_size\": \"3\", \"data_root\": \"r\", \
                \"tags\": [{\"name\": \"a\", \"value\": \"b\"}, {\"name\": \"a\", \"value\": \"c\"}]}  ";
    let t1 = interpret_tx_response(200, body).unwrap();
    let body2 = encode_transaction_data(&t1);
    let t2 = interpret_tx_response(200, &body2).unwrap();
    assert_eq!(t1, t2);
    assert_eq!(t1.data, vec![0u8, 255, 7]);
    assert_eq!(t1.id, "tx\n1");
    assert_eq!(t1.signature, "s\\x");
    assert_eq!(t1.tags.len(), 2);
    assert_eq!(t1.tags[0].value, "b");
    assert_eq!(t1.tags[1].value, "c");
}

#[test]
fn status_decode_reencode_decode_is_idempotent() {
    let body = "{\"status\": 1, \"confirmed\": {\"block_indep_hash\": \"h\", \
                \"block_height\": 4, \"number_of_confirmations\": 9}}";
    let s1 = interpret_status_response(200, body).unwrap();
    let body2 = encode_status_response(&s1);
    let s2 = interpret_status_response(200, &body2).unwrap();
    assert_eq!(s1, s2);
}

#[test]
fn price_body_is_never_reformatted() {
    // larger than any fixed-width integer: must come back verbatim
    let quote = "123456789012345678901234567890123456789";
    assert_eq!(interpret_price_response(204, quote).unwrap(), quote);
}

#[test]
fn wrong_shaped_success_object_is_a_server_error() {
    // a JSON object that misses the success schema (data byte out of range)
    // counts as the gateway's error shape, not as malformed
    let body = "{\"format\": 2, \"id\": \"i\", \"last_tx\": \"l\", \"owner\": \"o\", \
                \"tags\": [], \"target\": \"t\", \"quantity\": \"q\", \"data\": [256], \
                \"reward\": \"r\", \"signature\": \"s\", \"data_size\": \"d\", \"data_root\": \"x\"}";
    assert!(matches!(
        interpret_tx_response(200, body),
        Err(ArweaveError::ProtocolError { .. })
    ));
}

#[test]
fn first_member_wins_on_duplicate_names() {
    let body = "{\"status\": 7, \"status\": 9}";
    let st = interpret_status_response(200, body).unwrap();
    assert_eq!(st.status, 7);
}
